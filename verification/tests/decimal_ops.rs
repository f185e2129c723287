use margin_risk::decimal::{Decimal, DECIMALS, SCALE};
use margin_risk::position::{Position, PositionSide};

#[test]
fn scale_matches_decimals() {
    assert_eq!(SCALE, 10i128.pow(DECIMALS));
}

#[test]
fn from_int_scales() {
    assert_eq!(Decimal::from_int(1).units(), 1_000_000);
    assert_eq!(Decimal::from_int(-3).units(), -3_000_000);
    assert_eq!(Decimal::from_int(0), Decimal::zero());
}

#[test]
fn from_units_is_identity_on_units() {
    assert_eq!(Decimal::from_units(123_456_789).units(), 123_456_789);
    assert_eq!(Decimal::from_units(-1).units(), -1);
}

#[test]
fn order_units_convert_one_to_one() {
    // One integer order unit is one decimal unit: the smallest increments
    // of the two representations coincide.
    assert_eq!(Decimal::from_order_units(0).units(), 0);
    assert_eq!(Decimal::from_order_units(1).units(), 1);
    assert_eq!(Decimal::from_order_units(50_000_000_000).units(), 50_000_000_000);
    assert_eq!(
        Decimal::from_order_units(1_000_000),
        Decimal::from_int(1)
    );
}

#[test]
fn fractional_sizes_scale_pnl() {
    // size 0.5 at a price move of 1000 yields 500.
    let mut p = Position::open_position(
        String::from("BTC-PERP"),
        PositionSide::Long,
        Decimal::from_units(500_000),
        Decimal::from_int(50000),
        10,
        Decimal::from_int(45500),
    )
    .unwrap();
    assert_eq!(p.calculate_pnl(Decimal::from_int(51000)), Decimal::from_int(500));
}

#[test]
fn sub_unit_pnl_rounds_away_from_zero() {
    // A move of one unit (0.000001) on a size of 0.5 is half a unit of
    // PnL: it rounds away from zero, so a strictly profitable (losing)
    // position never shows a PnL of zero.
    let mut p = Position::open_position(
        String::from("BTC-PERP"),
        PositionSide::Long,
        Decimal::from_units(500_000),
        Decimal::from_int(100),
        2,
        Decimal::from_int(50),
    )
    .unwrap();
    assert_eq!(p.calculate_pnl(Decimal::from_units(100_000_001)).units(), 1);
    assert_eq!(p.calculate_pnl(Decimal::from_units(99_999_999)).units(), -1);
    // A move of three units on the same size is 1.5 units: rounded to two.
    assert_eq!(p.calculate_pnl(Decimal::from_units(100_000_003)).units(), 2);
    assert_eq!(p.calculate_pnl(Decimal::from_units(99_999_997)).units(), -2);
    // At the entry price the PnL is exactly zero.
    assert_eq!(p.calculate_pnl(Decimal::from_int(100)).units(), 0);
}

#[test]
fn margin_at_double_leverage_is_truncated_half() {
    // entry 0.000003 * size 1.0: three units of margin at leverage 1,
    // one unit (three halved, truncated) at leverage 2.
    let at = |leverage: u8| {
        Position::open_position(
            String::from("X"),
            PositionSide::Long,
            Decimal::from_int(1),
            Decimal::from_units(3),
            leverage,
            Decimal::from_units(0),
        )
        .unwrap()
        .initial_margin()
    };
    assert_eq!(at(1).units(), 3);
    assert_eq!(at(2).units(), 1);
}

#[test]
fn margin_truncates_toward_zero() {
    // entry 0.000001 * size 1.0 / leverage 2 is half a unit: truncated to 0.
    let p = Position::open_position(
        String::from("X"),
        PositionSide::Long,
        Decimal::from_int(1),
        Decimal::from_units(1),
        2,
        Decimal::from_units(0),
    )
    .unwrap();
    assert_eq!(p.initial_margin().units(), 0);
}
