use margin_risk::account::Account;
use margin_risk::decimal::Decimal;
use margin_risk::events::PriceUpdate;
use margin_risk::position::{Position, PositionSide};

fn open(symbol: &str, side: PositionSide, size: i64, entry: i64, leverage: u8, liq: i64)
    -> Position {
    Position::open_position(
        String::from(symbol),
        side,
        Decimal::from_int(size),
        Decimal::from_int(entry),
        leverage,
        Decimal::from_int(liq),
    )
    .unwrap()
}

fn account_with(positions: Vec<Position>) -> Account {
    Account {
        user_id: 7,
        collateral: Decimal::from_int(100000),
        unrealized_pnl: Decimal::zero(),
        margin_ratio: Decimal::zero(),
        positions,
    }
}

#[test]
fn liquidation_emits_event_with_loss_at_mark() {
    let p = open("BTC-PERP", PositionSide::Long, 1, 50000, 10, 45500);
    let mut acct = account_with(vec![p]);
    let update = PriceUpdate {
        symbol: String::from("BTC-PERP"),
        mark_price: Decimal::from_int(45500),
        timestamp: 42,
    };
    let events = acct.apply_price_update(&update);
    assert_eq!(events.len(), 1);
    let e = &events[0];
    assert_eq!(e.user_id, 7);
    assert_eq!(e.symbol, "BTC-PERP");
    assert_eq!(e.side, PositionSide::Long);
    assert_eq!(e.size, Decimal::from_int(1));
    assert_eq!(e.entry_price, Decimal::from_int(50000));
    assert_eq!(e.liquidation_price, Decimal::from_int(45500));
    assert_eq!(e.actual_price, Decimal::from_int(45500));
    assert_eq!(e.loss, Decimal::from_int(-4500));
    assert_eq!(e.timestamp, 42);
    assert!(acct.positions.is_empty());
    assert_eq!(acct.unrealized_pnl.units(), 0);
}

#[test]
fn slippage_loss_may_exceed_threshold_pnl() {
    let p = open("BTC-PERP", PositionSide::Long, 1, 50000, 10, 45500);
    let mut acct = account_with(vec![p]);
    let update = PriceUpdate {
        symbol: String::from("BTC-PERP"),
        mark_price: Decimal::from_int(45000),
        timestamp: 43,
    };
    let events = acct.apply_price_update(&update);
    assert_eq!(events.len(), 1);
    assert_eq!(events[0].actual_price, Decimal::from_int(45000));
    assert_eq!(events[0].liquidation_price, Decimal::from_int(45500));
    assert_eq!(events[0].loss, Decimal::from_int(-5000));
}

#[test]
fn other_symbols_are_untouched() {
    let btc = open("BTC-PERP", PositionSide::Long, 1, 50000, 10, 45500);
    let eth = open("ETH-PERP", PositionSide::Long, 10, 3000, 5, 2500);
    let mut acct = account_with(vec![btc, eth]);
    let update = PriceUpdate {
        symbol: String::from("BTC-PERP"),
        mark_price: Decimal::from_int(51000),
        timestamp: 1,
    };
    let events = acct.apply_price_update(&update);
    assert!(events.is_empty());
    assert_eq!(acct.positions.len(), 2);
    assert_eq!(acct.positions[0].unrealized_pnl, Decimal::from_int(1000));
    assert_eq!(acct.positions[1].unrealized_pnl.units(), 0);
    assert_eq!(acct.unrealized_pnl, Decimal::from_int(1000));
    assert_eq!(acct.collateral, Decimal::from_int(100000));
}

#[test]
fn aggregate_pnl_sums_over_surviving_positions() {
    let a = open("BTC-PERP", PositionSide::Long, 1, 50000, 10, 45500);
    let b = open("BTC-PERP", PositionSide::Short, 2, 52000, 5, 57000);
    let mut acct = account_with(vec![a, b]);
    let update = PriceUpdate {
        symbol: String::from("BTC-PERP"),
        mark_price: Decimal::from_int(51000),
        timestamp: 5,
    };
    let events = acct.apply_price_update(&update);
    assert!(events.is_empty());
    assert_eq!(acct.positions.len(), 2);
    // long: +1000, short: (52000 - 51000) * 2 = +2000
    assert_eq!(acct.unrealized_pnl, Decimal::from_int(3000));
}

#[test]
fn liquidated_position_is_removed_others_kept() {
    let doomed = open("BTC-PERP", PositionSide::Short, 1, 50000, 2, 51000);
    let safe = open("BTC-PERP", PositionSide::Long, 1, 40000, 10, 36000);
    let mut acct = account_with(vec![doomed, safe]);
    let update = PriceUpdate {
        symbol: String::from("BTC-PERP"),
        mark_price: Decimal::from_int(52000),
        timestamp: 9,
    };
    let events = acct.apply_price_update(&update);
    assert_eq!(events.len(), 1);
    assert_eq!(events[0].side, PositionSide::Short);
    assert_eq!(events[0].loss, Decimal::from_int(-2000));
    assert_eq!(acct.positions.len(), 1);
    assert_eq!(acct.positions[0].entry_price, Decimal::from_int(40000));
    assert_eq!(acct.positions[0].unrealized_pnl, Decimal::from_int(12000));
    assert_eq!(acct.unrealized_pnl, Decimal::from_int(12000));
}

#[test]
fn empty_account_yields_no_events() {
    let mut acct = account_with(Vec::new());
    let update = PriceUpdate {
        symbol: String::from("BTC-PERP"),
        mark_price: Decimal::from_int(1),
        timestamp: 0,
    };
    let events = acct.apply_price_update(&update);
    assert!(events.is_empty());
    assert_eq!(acct.unrealized_pnl.units(), 0);
}
