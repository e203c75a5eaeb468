use eidolon::market_coordinator::{
    EscrowError, MarketEscrowCoordinator, MarketStation, TradeExecution,
};

#[test]
fn test_market_station_freight_and_distance() {
    let st1 = MarketStation::new(1, 0, 0, 200, 10);
    let st2 = MarketStation::new(2, 3, 4, 100, 15);

    assert_eq!(st1.sector_distance_to(&st2), 7);
    assert_eq!(st2.sector_distance_to(&st1), 7);

    let freight = st1.calculate_freight_fee(&st2, 5);
    assert_eq!(freight, 350);
}

#[test]
fn freight_fee_saturates() {
    let a = MarketStation::new(1, -5, 0, 0, u64::MAX / 2);
    let b = MarketStation::new(2, 5, 0, 0, 1);
    assert_eq!(a.sector_distance_to(&b), 10);
    assert_eq!(a.calculate_freight_fee(&b, 3), u64::MAX);
    assert_eq!(a.calculate_freight_fee(&b, 0), 0);
}

fn trade(buy: u64, sell: u64, quantity: u32, unit: u64, station: u32) -> TradeExecution {
    TradeExecution {
        trade_id: 1,
        buy_order_id: buy,
        sell_order_id: sell,
        buyer_account_id: 2,
        seller_account_id: 1,
        item_type_id: 999,
        quantity,
        unit_price: unit,
        total_price: unit * quantity as u64,
        station_id: station,
        tick: 2,
    }
}

// The settlement half of the escrow scenario: a resting sell of 10 @ 80 matched by a buy
// limit of 100 at a 5% station.
#[test]
fn escrow_settlement_and_buyer_savings_refund() {
    let mut coordinator = MarketEscrowCoordinator::new();
    assert!(coordinator.register_station(MarketStation::new(1, 0, 0, 500, 5)));
    coordinator.lock_sell_escrow(101, 1, 999, 10, 1).unwrap();
    coordinator.lock_buy_escrow(102, 2, 1000, 1).unwrap();
    assert_eq!(coordinator.holding_count(), 2);

    let (payout, tax, refund) = coordinator.settle_trade(&trade(102, 101, 10, 80, 1), 100).unwrap();
    assert_eq!(tax, 40);
    assert_eq!(payout, 760);
    assert_eq!(refund, 200);
    assert_eq!(coordinator.total_tax_revenue, 40);
    assert_eq!(coordinator.total_volume_settled, 800);
    assert_eq!(coordinator.holding_count(), 0);
}

#[test]
fn unregistered_station_uses_default_tax_and_partial_fills_keep_escrow() {
    let mut coordinator = MarketEscrowCoordinator::default();
    coordinator.lock_sell_escrow(7, 1, 5, 10, 9).unwrap();
    coordinator.lock_buy_escrow(8, 2, 1000, 9).unwrap();
    let (payout, tax, refund) = coordinator.settle_trade(&trade(8, 7, 4, 50, 9), 50).unwrap();
    assert_eq!(tax, 2);
    assert_eq!(payout, 198);
    assert_eq!(refund, 0);
    assert_eq!(coordinator.holding_count(), 2);
    let sell = coordinator.cancel_and_refund_escrow(7, 1).unwrap();
    assert_eq!(sell.locked_quantity, 6);
    let buy = coordinator.cancel_and_refund_escrow(8, 2).unwrap();
    assert_eq!(buy.locked_currency, 800);
    assert_eq!(coordinator.holding_count(), 0);
}

#[test]
fn escrow_cancel_checks_owner_and_capacity_limits() {
    let mut coordinator = MarketEscrowCoordinator::new();
    coordinator.lock_buy_escrow(1, 10, 500, 1).unwrap();
    assert_eq!(coordinator.cancel_and_refund_escrow(1, 11), Err(EscrowError::UnauthorizedAccount));
    assert_eq!(coordinator.cancel_and_refund_escrow(2, 10), Err(EscrowError::EscrowNotFound));
    let h = coordinator.cancel_and_refund_escrow(1, 10).unwrap();
    assert_eq!(h.locked_currency, 500);
    assert!(h.is_currency);
    for i in 0..256u64 {
        coordinator.lock_buy_escrow(i, 1, 1, 1).unwrap();
    }
    assert_eq!(coordinator.lock_sell_escrow(999, 1, 1, 1, 1), Err(EscrowError::EscrowCapacityExceeded));
    for i in 0..16u32 {
        assert!(coordinator.register_station(MarketStation::new(i, 0, 0, 0, 0)));
    }
    assert!(!coordinator.register_station(MarketStation::new(99, 0, 0, 0, 0)));
    assert_eq!(coordinator.get_station(3).map(|s| s.station_id), Some(3));
    assert!(coordinator.get_station(99).is_none());
}
