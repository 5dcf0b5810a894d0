use fair_simulation::cascade::{
    aggregate_results, impacted_price, run_cascade_simulation, run_once, shocked_price,
    CascadeResult, CascadeSimulation, PriceScenario, NUM_KEEPERS, NUM_POSITIONS, PRICE_FLOOR,
};
use fair_simulation::mechanism::LiquidationMechanism;
use fair_simulation::position::{Position, INITIAL_PRICE};
use rand::rngs::StdRng;
use rand::SeedableRng;

fn sample_result(bad_debt: u64, drop: i64, participation: u64) -> CascadeResult {
    CascadeResult {
        mechanism: LiquidationMechanism::KeeperPool,
        scenario: PriceScenario::FlashCrash,
        cascade_depth: 1,
        total_liquidations: 20,
        bad_debt,
        blocks_to_stability: 15,
        final_price: 1_400_000_000,
        price_drop_ppm: drop,
        profit_concentration_ppm: 200_000,
        participation_ppm: participation,
        unliquidated_underwater: 0,
        max_liquidations_per_block: 10,
    }
}

#[test]
fn test_cdp_collateral_ratio() {
    let cdp = Position {
        id: 0,
        collateral: 10_000_000,
        debt: 10_000_000_000,
        liquidated: false,
    };
    let at_2000 = cdp.collateral_ratio(2_000_000_000).unwrap() as i128;
    let at_1000 = cdp.collateral_ratio(1_000_000_000).unwrap() as i128;
    assert!((at_2000 - 2_000_000).abs() < 1_000);
    assert!((at_1000 - 1_000_000).abs() < 1_000);
}

#[test]
fn test_cascade_simulation_runs() {
    let mut rng = StdRng::seed_from_u64(7);
    let results = run_cascade_simulation(
        LiquidationMechanism::KeeperPool,
        PriceScenario::FlashCrash,
        10,
        &mut rng,
        &Vec::new(),
    );
    assert_eq!(results.len(), 10);
    for r in &results {
        assert!(r.total_liquidations > 0);
    }
}

#[test]
fn test_keeper_pool_better_participation() {
    let mut rng = StdRng::seed_from_u64(11);
    let traditional = run_cascade_simulation(
        LiquidationMechanism::Traditional,
        PriceScenario::FlashCrash,
        100,
        &mut rng,
        &Vec::new(),
    );
    let keeper_pool = run_cascade_simulation(
        LiquidationMechanism::KeeperPool,
        PriceScenario::FlashCrash,
        100,
        &mut rng,
        &Vec::new(),
    );
    let trad_agg = aggregate_results(&traditional);
    let pool_agg = aggregate_results(&keeper_pool);
    println!("Traditional participation: {:.1}%", trad_agg.avg_participation_ppm as f64 / 10_000.0);
    println!("Keeper Pool participation: {:.1}%", pool_agg.avg_participation_ppm as f64 / 10_000.0);
    assert!(pool_agg.avg_participation_ppm >= trad_agg.avg_participation_ppm);
}

#[test]
fn flash_crash_keeper_pool_liquidates() {
    let mut rng = StdRng::seed_from_u64(2024);
    let r = run_once(
        LiquidationMechanism::KeeperPool,
        PriceScenario::FlashCrash,
        &mut rng,
        &Vec::new(),
    );
    assert!(r.total_liquidations > 0);
    assert!(r.cascade_depth >= 1);
}

#[test]
fn same_seed_gives_identical_runs() {
    let returns: Vec<i64> = (0..100).map(|b| if b % 3 == 0 { -60_000 } else { 10_000 }).collect();
    for scenario in PriceScenario::all() {
        for mechanism in LiquidationMechanism::all() {
            let mut a = StdRng::seed_from_u64(99);
            let mut b = StdRng::seed_from_u64(99);
            let ra = run_once(mechanism, scenario, &mut a, &returns);
            let rb = run_once(mechanism, scenario, &mut b, &returns);
            assert_eq!(format!("{:?}", ra), format!("{:?}", rb));
        }
    }
}

#[test]
fn run_results_stay_in_bounds() {
    let returns: Vec<i64> = (0..100).map(|b| if b % 2 == 0 { -80_000 } else { 20_000 }).collect();
    let mut rng = StdRng::seed_from_u64(5);
    for scenario in PriceScenario::all() {
        for mechanism in LiquidationMechanism::all() {
            let r = run_once(mechanism, scenario, &mut rng, &returns);
            assert!(r.cascade_depth <= r.blocks_to_stability);
            assert!(r.blocks_to_stability <= 100);
            assert!(r.participation_ppm <= 1_000_000);
            assert!(r.profit_concentration_ppm <= 1_000_000);
            assert!(r.max_liquidations_per_block <= 10);
            assert!(r.final_price >= PRICE_FLOOR);
            assert_eq!(r.mechanism, mechanism);
            assert_eq!(r.scenario, scenario);
        }
    }
}

#[test]
fn new_simulation_draws_varied_positions() {
    let mut rng = StdRng::seed_from_u64(3);
    let sim = CascadeSimulation::new(
        LiquidationMechanism::Traditional,
        PriceScenario::GradualDecline,
        &mut rng,
    );
    assert_eq!(sim.positions.len(), NUM_POSITIONS);
    assert_eq!(sim.keepers.len(), NUM_KEEPERS);
    assert_eq!(sim.price, INITIAL_PRICE);
    let first = sim.positions[0].collateral;
    assert!(sim.positions.iter().any(|p| p.collateral != first));
    assert!(sim.positions.iter().any(|p| p.collateral != 1_000_000));
    for p in &sim.positions {
        assert!(p.collateral >= 1_000_000 && p.collateral < 20_000_000);
        assert!(!p.is_liquidatable(INITIAL_PRICE));
        let ratio = p.collateral_ratio(INITIAL_PRICE).unwrap();
        assert!(ratio >= 1_500_000 && ratio <= 2_500_000);
    }
    assert!(sim.keepers.iter().any(|k| k.priority != 0));
    for k in &sim.keepers {
        assert!(k.priority < 1_000_000);
        assert!(k.capital >= 10_000_000_000 && k.capital < 100_000_000_000);
    }
}

#[test]
fn scenario_shocks_exact() {
    let p = 2_000_000_000;
    assert_eq!(shocked_price(PriceScenario::FlashCrash, 0, p, 0, false), 1_400_000_000);
    assert_eq!(shocked_price(PriceScenario::FlashCrash, 1, p, 0, false), p);
    assert_eq!(shocked_price(PriceScenario::GradualDecline, 9, p, 0, false), 1_960_000_000);
    assert_eq!(shocked_price(PriceScenario::GradualDecline, 10, p, 0, false), p);
    assert_eq!(shocked_price(PriceScenario::BlackSwan, 0, p, 0, false), 1_000_000_000);
    assert_eq!(shocked_price(PriceScenario::BlackSwan, 19, p, 0, false), 1_980_000_000);
    assert_eq!(shocked_price(PriceScenario::BlackSwan, 20, p, 0, false), p);
    assert_eq!(shocked_price(PriceScenario::VolatileCrash, 4, p, -20_000, false), 1_960_000_000);
    assert_eq!(shocked_price(PriceScenario::VolatileCrash, 4, p, -20_000, true), 1_764_000_000);
    assert_eq!(shocked_price(PriceScenario::VolatileCrash, 4, p, 50_000, false), 2_100_000_000);
    assert_eq!(shocked_price(PriceScenario::FlashCrash, 0, 120_000_000, 0, false), PRICE_FLOOR);
    assert_eq!(shocked_price(PriceScenario::VolatileCrash, 0, p, -2_000_000, false), PRICE_FLOOR);
}

#[test]
fn price_impact_exact() {
    assert_eq!(impacted_price(2_000_000_000, 10_000_000), 1_998_000_000);
    assert_eq!(impacted_price(2_000_000_000, 0), 2_000_000_000);
    assert_eq!(impacted_price(2_000_000_000, 5_000_000_000), 1_000_000_000);
    assert_eq!(impacted_price(150_000_000, 9_000_000_000), PRICE_FLOOR);
}

#[test]
fn aggregate_averages_and_frequency() {
    let results = vec![
        sample_result(0, 300_000, 400_000),
        sample_result(1_000, -100_000, 600_000),
        sample_result(2_000, 100_000, 500_000),
    ];
    let agg = aggregate_results(&results);
    assert_eq!(agg.runs, 3);
    assert_eq!(agg.avg_bad_debt, 1_000);
    assert_eq!(agg.max_bad_debt, 2_000);
    assert_eq!(agg.bad_debt_frequency_ppm, 666_666);
    assert_eq!(agg.avg_price_drop_ppm, 100_000);
    assert_eq!(agg.avg_participation_ppm, 500_000);
    assert_eq!(agg.avg_liquidations, 20);
    assert_eq!(agg.avg_cascade_depth, 1);
    assert_eq!(agg.avg_blocks_to_stability, 15);
}

#[test]
fn aggregate_of_one_run_is_that_run() {
    let results = vec![sample_result(4_321, -7, 260_000)];
    let agg = aggregate_results(&results);
    assert_eq!(agg.avg_bad_debt, 4_321);
    assert_eq!(agg.max_bad_debt, 4_321);
    assert_eq!(agg.avg_price_drop_ppm, -7);
    assert_eq!(agg.avg_participation_ppm, 260_000);
    assert_eq!(agg.bad_debt_frequency_ppm, 1_000_000);
}

fn round_fixture(mechanism: LiquidationMechanism) -> CascadeSimulation {
    let mut positions: Vec<Position> = (0..NUM_POSITIONS)
        .map(|i| Position::new(i, 10_000_000, 1_000_000_000))
        .collect();
    positions[7] = Position::new(7, 10_000_000, 12_000_000_000);
    positions[100] = Position::new(100, 10_000_000, 13_000_000_000);
    positions[300] = Position::new(300, 10_000_000, 13_900_000_000);
    let keepers = (0..NUM_KEEPERS)
        .map(|i| fair_simulation::position::Keeper::new(i, 50_000_000_000, i as u64 * 1_000))
        .collect();
    CascadeSimulation {
        positions,
        keepers,
        price: 1_400_000_000,
        mechanism,
        scenario: PriceScenario::FlashCrash,
        block: 1,
        cascade_depth: 0,
        current_wave_liquidations: 0,
        total_liquidations: 0,
        price_history: vec![INITIAL_PRICE, 1_400_000_000],
        liquidations_per_block: vec![0],
    }
}

#[test]
fn traditional_round_pays_the_top_keeper() {
    let mut sim = round_fixture(LiquidationMechanism::Traditional);
    let mut rng = StdRng::seed_from_u64(1);
    let count = sim.run_liquidation_round(&mut rng);
    assert_eq!(count, 2);
    assert!(sim.positions[7].liquidated && sim.positions[100].liquidated);
    assert!(!sim.positions[300].liquidated);
    assert_eq!(sim.price, 1_397_200_000);
    assert_eq!(sim.keepers[49].total_profit, 390_000_000);
    assert_eq!(sim.keepers[49].liquidations, 2);
    for k in 0..49 {
        assert_eq!(sim.keepers[k].total_profit, 0);
        assert_eq!(sim.keepers[k].liquidations, 0);
    }
}

#[test]
fn keeper_pool_round_splits_among_all() {
    let mut sim = round_fixture(LiquidationMechanism::KeeperPool);
    let mut rng = StdRng::seed_from_u64(1);
    let count = sim.run_liquidation_round(&mut rng);
    assert_eq!(count, 3);
    assert!(sim.positions[7].liquidated && sim.positions[100].liquidated && sim.positions[300].liquidated);
    assert_eq!(sim.price, 1_395_800_000);
    for k in &sim.keepers {
        assert_eq!(k.total_profit, 5_642_000);
    }
    let executions: u64 = sim.keepers.iter().map(|k| k.liquidations).sum();
    assert_eq!(executions, 3);
}

#[test]
fn empty_batch_aggregates_to_zero() {
    let agg = aggregate_results(&Vec::new());
    assert_eq!(agg.runs, 0);
    assert_eq!(agg.mechanism, LiquidationMechanism::Traditional);
    assert_eq!(agg.scenario, PriceScenario::GradualDecline);
    assert_eq!(agg.avg_bad_debt, 0);
    assert_eq!(agg.max_bad_debt, 0);
    assert_eq!(agg.avg_price_drop_ppm, 0);
    assert_eq!(agg.avg_participation_ppm, 0);
    assert_eq!(agg.bad_debt_frequency_ppm, 0);
}

#[test]
fn runs_follow_the_stop_rule_and_keeper_outcomes() {
    let returns: Vec<i64> = (0..100).map(|b| if b % 4 == 0 { -90_000 } else { 5_000 }).collect();
    let mut rng = StdRng::seed_from_u64(77);
    for scenario in PriceScenario::all() {
        for mechanism in LiquidationMechanism::all() {
            let mut sim = CascadeSimulation::new(mechanism, scenario, &mut rng);
            let r = sim.run(&mut rng, &returns);
            let l = &sim.liquidations_per_block;
            let quiet = |b: usize| b + 1 >= 10 && b >= 4 && l[b - 4..=b].iter().all(|&x| x == 0);
            if r.blocks_to_stability < 100 {
                assert_eq!(l.len(), r.blocks_to_stability + 1);
                assert!(quiet(r.blocks_to_stability));
            } else {
                assert_eq!(l.len(), 100);
            }
            for b in 0..r.blocks_to_stability {
                assert!(!quiet(b));
            }
            assert_eq!(r.total_liquidations, l.iter().sum::<usize>());
            let waves = (1..l.len()).filter(|&i| l[i] == 0 && l[i - 1] > 0).count();
            assert_eq!(r.cascade_depth, waves);
            assert!(2 * r.cascade_depth <= l.len());
            let liquidated = sim.positions.iter().filter(|p| p.liquidated).count();
            assert_eq!(liquidated, r.total_liquidations);
            let executions: u64 = sim.keepers.iter().map(|k| k.liquidations).sum();
            assert_eq!(executions as usize, r.total_liquidations);
            assert_eq!(r.participation_ppm > 0, r.total_liquidations > 0);
            match mechanism {
                LiquidationMechanism::Traditional => {
                    assert!(r.participation_ppm == 0 || r.participation_ppm == 20_000);
                    let earners = sim.keepers.iter().filter(|k| k.total_profit > 0).count();
                    assert!(earners <= 1);
                }
                LiquidationMechanism::KeeperPool => {
                    let first = sim.keepers[0].total_profit;
                    assert!(sim.keepers.iter().all(|k| k.total_profit == first));
                }
            }
        }
    }
}
