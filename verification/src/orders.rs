//! Trading intents and their matches, as produced and consumed by the
//! external order-intake and matching components.
//!
//! `Order.price` and `Order.quantity` are integers in the smallest tradable
//! increment. The documented conversion to the decimal risk unit is
//! `Decimal::from_order_units`: one order unit is one `Decimal` unit, so the
//! two smallest increments coincide.

use vstd::prelude::*;
use crate::decimal::Decimal;

verus! {

/// Direction of an order.
#[derive(Clone, Copy, PartialEq, Eq, Structural, Debug)]
pub enum Side {
    Buy,
    Sell,
}

/// An intent to trade. Immutable once created.
#[derive(Clone, Debug, PartialEq)]
pub struct Order {
    pub order_id: u64,
    pub user_id: u64,
    pub symbol: String,
    pub side: Side,
    /// In the smallest tradable increment, not in decimal risk units.
    pub price: u64,
    /// In the smallest tradable increment, not in decimal risk units.
    pub quantity: u64,
    pub timestamp: u64,
}

/// The result of a match between two orders. Immutable; one execution may
/// partially fill an order.
#[derive(Clone, Copy, PartialEq, Eq, Structural, Debug)]
pub struct Execution {
    pub buy_order_id: u64,
    pub sell_order_id: u64,
    /// In the smallest tradable increment, not in decimal risk units.
    pub price: u64,
    /// In the smallest tradable increment, not in decimal risk units.
    pub quantity: u64,
    pub timestamp: u64,
}

impl Decimal {
    /// The boundary conversion from the integer order unit to the decimal
    /// risk unit: one order unit is one `Decimal` unit (`1 / SCALE` whole).
    pub fn from_order_units(v: u64) -> (r: Decimal)
        ensures
            r@ == v,
    {
        Decimal { units: v as i128 }
    }
}

} // verus!
