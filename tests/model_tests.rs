use fair_simulation::mechanism::{settle, traditional_winner, willing_keepers, LiquidationMechanism};
use fair_simulation::position::{Keeper, Position};
use fair_simulation::ranking::rank_liquidatable;
use fair_simulation::summary::{
    count_active, count_open_underwater, max_per_block, profit_concentration, total_bad_debt,
};

fn keeper(id: usize, priority: u64) -> Keeper {
    Keeper::new(id, 50_000_000_000, priority)
}

#[test]
fn ratio_rises_with_price() {
    let p = Position::new(0, 10_000_000, 15_000_000_000);
    let mut last = 0u128;
    for price in [100_000_000u64, 1_000_000_000, 1_500_000_000, 2_000_000_000, 4_000_000_000] {
        let r = p.collateral_ratio(price).unwrap();
        assert!(r >= last);
        last = r;
    }
    assert_eq!(p.collateral_ratio(2_000_000_000), Some(1_333_333));
    assert_eq!(Position::new(1, 10_000_000, 0).collateral_ratio(2_000_000_000), None);
}

#[test]
fn underwater_positions_are_liquidatable() {
    let p = Position::new(0, 10_000_000, 15_000_000_000);
    assert!(p.is_underwater(1_400_000_000));
    assert!(p.is_liquidatable(1_400_000_000));
    assert!(!p.is_underwater(1_500_000_000));
    assert!(p.is_liquidatable(2_000_000_000));
    assert!(!p.is_liquidatable(2_250_000_000));
    let done = Position { liquidated: true, ..p };
    assert!(!done.is_liquidatable(1_000_000_000));
    let free = Position::new(2, 10_000_000, 0);
    assert!(!free.is_liquidatable(100_000_000));
    assert!(!free.is_underwater(100_000_000));
}

#[test]
fn profit_and_bad_debt_exact() {
    let p = Position::new(0, 10_000_000, 15_000_000_000);
    assert_eq!(p.collateral_value(2_000_000_000), 20_000_000_000);
    assert_eq!(p.liquidation_profit(2_000_000_000), 650_000_000);
    assert_eq!(p.liquidation_profit(1_000_000_000), 0);
    assert_eq!(p.bad_debt(1_000_000_000), 5_000_000_000);
    assert_eq!(p.bad_debt(2_000_000_000), 0);
    let done = Position { liquidated: true, ..p };
    assert_eq!(done.bad_debt(1_000_000_000), 0);
}

#[test]
fn willingness_thresholds() {
    let k = keeper(0, 1);
    assert!(k.willing_to_liquidate(50_000_001, LiquidationMechanism::Traditional));
    assert!(!k.willing_to_liquidate(50_000_000, LiquidationMechanism::Traditional));
    assert!(k.willing_to_liquidate(10_000_001, LiquidationMechanism::KeeperPool));
    assert!(!k.willing_to_liquidate(10_000_000, LiquidationMechanism::KeeperPool));
    let ks = vec![keeper(0, 1), keeper(1, 2), keeper(2, 3)];
    assert_eq!(willing_keepers(&ks, 20_000_000, LiquidationMechanism::KeeperPool), vec![0, 1, 2]);
    assert!(willing_keepers(&ks, 20_000_000, LiquidationMechanism::Traditional).is_empty());
}

#[test]
fn traditional_pays_only_the_top_priority_keeper() {
    let mut ks = vec![keeper(0, 300), keeper(1, 900), keeper(2, 900), keeper(3, 100)];
    let parts = vec![0, 1, 2, 3];
    assert_eq!(traditional_winner(&ks, &parts), 1);
    let executor = settle(&mut ks, &parts, 75_000_000, LiquidationMechanism::Traditional, 3);
    assert_eq!(executor, 1);
    assert_eq!(ks[1].total_profit, 75_000_000);
    assert_eq!(ks[1].liquidations, 1);
    for i in [0, 2, 3] {
        assert_eq!(ks[i].total_profit, 0);
        assert_eq!(ks[i].liquidations, 0);
    }
}

#[test]
fn keeper_pool_splits_seventy_percent_evenly() {
    let mut ks = vec![keeper(0, 5), keeper(1, 6), keeper(2, 7), keeper(3, 8)];
    let parts = vec![0, 2, 3];
    let executor = settle(&mut ks, &parts, 1_000, LiquidationMechanism::KeeperPool, 1);
    assert_eq!(executor, 2);
    assert_eq!(ks[0].total_profit, 233);
    assert_eq!(ks[2].total_profit, 233);
    assert_eq!(ks[3].total_profit, 233);
    assert_eq!(ks[1].total_profit, 0);
    let paid: u128 = ks.iter().map(|k| k.total_profit).sum();
    assert!(700 - paid < 3);
    assert_eq!(ks[2].liquidations, 1);
    assert_eq!(ks[0].liquidations + ks[1].liquidations + ks[3].liquidations, 0);
}

#[test]
fn ranking_orders_by_ratio_then_index() {
    let price = 1_400_000_000;
    let ps = vec![
        Position::new(0, 10_000_000, 10_000_000_000),
        Position::new(1, 10_000_000, 12_000_000_000),
        Position::new(2, 10_000_000, 5_000_000_000),
        Position::new(3, 20_000_000, 24_000_000_000),
        Position { liquidated: true, ..Position::new(4, 10_000_000, 13_000_000_000) },
        Position::new(5, 10_000_000, 0),
    ];
    assert_eq!(rank_liquidatable(&ps, price, 10), vec![1, 3, 0]);
    assert_eq!(rank_liquidatable(&ps, price, 2), vec![1, 3]);
    assert!(rank_liquidatable(&ps, price, 0).is_empty());
}

#[test]
fn end_of_run_measures() {
    let ps = vec![
        Position::new(0, 10_000_000, 15_000_000_000),
        Position { liquidated: true, ..Position::new(1, 10_000_000, 15_000_000_000) },
        Position::new(2, 10_000_000, 5_000_000_000),
    ];
    assert_eq!(total_bad_debt(&ps, 1_000_000_000), 5_000_000_000);
    assert_eq!(count_open_underwater(&ps, 1_000_000_000), 1);
    let mut ks: Vec<Keeper> = (0..10).map(|i| keeper(i, 0)).collect();
    assert_eq!(profit_concentration(&ks), 0);
    assert_eq!(count_active(&ks), 0);
    ks[3].total_profit = 600;
    ks[4].total_profit = 300;
    ks[7].total_profit = 100;
    ks[3].liquidations = 2;
    ks[7].liquidations = 1;
    assert_eq!(profit_concentration(&ks), 900_000);
    assert_eq!(count_active(&ks), 2);
    assert_eq!(max_per_block(&vec![0, 3, 10, 2]), 10);
    assert_eq!(max_per_block(&Vec::new()), 0);
}
