//! Externally observable facts: the inbound price update and the closed set
//! of outbound domain events.

use vstd::prelude::*;
use crate::decimal::Decimal;
use crate::orders::{Execution, Order};
use crate::position::{Position, PositionSide};

verus! {

/// An external fact: the current mark price of one symbol. Transient; it is
/// applied to the affected positions, never stored.
#[derive(Clone, Debug, PartialEq)]
pub struct PriceUpdate {
    pub symbol: String,
    pub mark_price: Decimal,
    pub timestamp: u64,
}

/// An immutable record of a liquidation outcome.
#[derive(Clone, Debug, PartialEq)]
pub struct LiquidationEvent {
    pub user_id: u64,
    pub symbol: String,
    pub side: PositionSide,
    pub size: Decimal,
    pub entry_price: Decimal,
    /// The threshold that fired.
    pub liquidation_price: Decimal,
    /// The mark price at closure; it may differ from the threshold through
    /// execution slippage.
    pub actual_price: Decimal,
    /// The PnL of the position at the instant of liquidation.
    pub loss: Decimal,
    pub timestamp: u64,
}

/// The complete, closed vocabulary of externally observable state changes.
/// A new kind of change must become a new variant, so that downstream
/// consumers stay exhaustive-match safe.
#[derive(Clone, Debug)]
pub enum SystemEvent {
    OrderPlaced(Order),
    OrderExecuted(Execution),
    PositionOpened { user_id: u64, position: Position, timestamp: u64 },
    PositionLiquidated(LiquidationEvent),
    PriceUpdate { symbol: String, price: Decimal, timestamp: u64 },
    AccountUpdated { user_id: u64, collateral: Decimal, margin_ratio: Decimal, timestamp: u64 },
}

} // verus!
