use vstd::prelude::*;
use crate::ids::{Currency, Date, Symbol};

verus! {

/// Everything that can go wrong while matching lots and settling trades.
/// Each variant carries the context a caller needs to act on it.
#[derive(Clone, Copy, Debug, PartialEq, Eq, Structural)]
pub enum Error {
    /// The symbol has no open position.
    UnknownPosition { symbol: Symbol },
    /// More quantity was requested than the open lots hold.
    InsufficientQuantity { symbol: Symbol, requested: u32, available: u32 },
    /// Arithmetic was attempted across two different currencies.
    CurrencyMismatch { left: Currency, right: Currency },
    /// No exchange rate is recorded for the currency pair at the date.
    ConversionUnavailable { from: Currency, to: Currency, date: Date },
    /// No market price is recorded for the symbol.
    QuoteUnavailable { symbol: Symbol },
    /// An amount left the representable range.
    AmountOverflow,
    /// A string is not a representable decimal amount, or is not positive
    /// where a positive amount is required.
    InvalidAmount,
    /// A currency or symbol code is empty, too long, or not printable ASCII.
    InvalidCode,
    /// A lot violates the book's invariant: zero quantity, a date not after
    /// the previous lot's, or a total beyond the quantity range.
    InvalidLot,
}

} // verus!
