//! Verified core of a Bybit price-movement trading bot: request signing,
//! request planning, response clean-up and the selection rules applied to
//! the exchange's market data.

pub mod text;
pub mod crypto;
pub mod session_;
pub mod symbols;
pub mod get_;
pub mod set_;
pub mod settings_;
pub mod get;
pub mod cycle;
