//! Risk primitives for leveraged derivative positions: PnL revaluation
//! against a mark price, liquidation-trigger evaluation, and initial-margin
//! sizing, together with the data model they operate on.

pub mod account;
pub mod decimal;
pub mod events;
pub mod orders;
pub mod position;
