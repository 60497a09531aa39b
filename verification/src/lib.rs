//! Capital-gains settlement for a brokerage portfolio: exact fixed-point
//! money tagged with interned currencies, a per-symbol FIFO book of
//! acquisition lots, dated currency conversion, commission accrual, and a
//! settlement engine that matches sells — real or simulated — against prior
//! buys and derives the tax-relevant figures. Every public operation carries
//! a contract stating exactly what it returns, and the FIFO conservation,
//! ordering, and rounding-stability laws are proved alongside the code.

pub mod commissions;
pub mod converter;
pub mod currency;
pub mod decimal;
pub mod error;
pub mod ids;
pub mod ledger;
pub mod localities;
pub mod lots;
pub mod quotes;
pub mod sell_simulation;
pub mod trades;
