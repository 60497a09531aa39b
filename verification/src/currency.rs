use vstd::prelude::*;
use crate::decimal::{fits, spec_from_string, Decimal};
use crate::error::Error;
use crate::ids::{packed_code, valid_code, Currency, Date};

verus! {

/// An exact decimal amount tagged with its currency. Two amounts combine
/// directly only when the currencies match; anything else takes an explicit
/// dated conversion.
#[derive(Clone, Copy, Debug, PartialEq, Eq, Structural)]
pub struct Cash {
    pub currency: Currency,
    pub amount: Decimal,
}

/// What adding two cash amounts yields: currency-checked exact addition.
pub open spec fn spec_cash_add(a: Cash, b: Cash) -> Result<Cash, Error> {
    if a.currency != b.currency {
        Err(Error::CurrencyMismatch { left: a.currency, right: b.currency })
    } else if fits(a.amount.units + b.amount.units) {
        Ok(
            (Cash {
                currency: a.currency,
                amount: Decimal { units: (a.amount.units + b.amount.units) as i128 },
            }),
        )
    } else {
        Err(Error::AmountOverflow)
    }
}

/// What subtracting one cash amount from another yields.
pub open spec fn spec_cash_sub(a: Cash, b: Cash) -> Result<Cash, Error> {
    if a.currency != b.currency {
        Err(Error::CurrencyMismatch { left: a.currency, right: b.currency })
    } else if fits(a.amount.units - b.amount.units) {
        Ok(
            (Cash {
                currency: a.currency,
                amount: Decimal { units: (a.amount.units - b.amount.units) as i128 },
            }),
        )
    } else {
        Err(Error::AmountOverflow)
    }
}

/// What scaling a cash amount by an integer count yields.
pub open spec fn spec_cash_scale(a: Cash, quantity: u32) -> Result<Cash, Error> {
    if fits(a.amount.units * quantity) {
        Ok(
            (Cash {
                currency: a.currency,
                amount: Decimal { units: (a.amount.units * quantity) as i128 },
            }),
        )
    } else {
        Err(Error::AmountOverflow)
    }
}

impl Cash {
    pub open spec fn valid(self) -> bool {
        self.amount.valid()
    }

    /// The same amount with its sign flipped.
    pub open spec fn spec_neg(self) -> Cash {
        Cash { currency: self.currency, amount: Decimal { units: (-self.amount.units) as i128 } }
    }

    pub fn new(currency: Currency, amount: Decimal) -> (r: Cash)
        ensures
            r == (Cash { currency, amount }),
    {
        Cash { currency, amount }
    }

    /// A cash amount parsed from a currency code and a numeric string.
    pub fn new_from_string(currency: &[u8], amount: &str) -> (r: Result<Cash, Error>)
        ensures
            r == (if !valid_code(currency@) {
                Err(Error::InvalidCode)
            } else {
                match spec_from_string(amount@) {
                    None => Err::<Cash, Error>(Error::InvalidAmount),
                    Some(d) => Ok(
                        (Cash { currency: (Currency { code: packed_code(currency@) as u128 }), amount: d }),
                    ),
                }
            }),
            r matches Ok(c) ==> c.valid(),
    {
        let cur = match Currency::from_code(currency) {
            Some(c) => c,
            None => {
                return Err(Error::InvalidCode);
            },
        };
        match Decimal::from_string(amount) {
            Some(d) => Ok(Cash { currency: cur, amount: d }),
            None => Err(Error::InvalidAmount),
        }
    }

    /// As `new_from_string`, but the amount must be strictly positive.
    pub fn new_from_string_positive(currency: &[u8], amount: &str) -> (r: Result<Cash, Error>)
        ensures
            r == (if !valid_code(currency@) {
                Err(Error::InvalidCode)
            } else {
                match spec_from_string(amount@) {
                    None => Err::<Cash, Error>(Error::InvalidAmount),
                    Some(d) => if d.units <= 0 {
                        Err::<Cash, Error>(Error::InvalidAmount)
                    } else {
                        Ok((Cash { currency: (Currency { code: packed_code(currency@) as u128 }), amount: d }))
                    },
                }
            }),
            r matches Ok(c) ==> c.valid() && c.amount.units > 0,
    {
        let cash = Cash::new_from_string(currency, amount)?;
        if !cash.amount.is_positive() {
            return Err(Error::InvalidAmount);
        }
        Ok(cash)
    }

    pub fn add(self, other: Cash) -> (r: Result<Cash, Error>)
        requires
            self.valid(),
            other.valid(),
        ensures
            r == spec_cash_add(self, other),
            r matches Ok(c) ==> c.valid(),
    {
        if self.currency != other.currency {
            return Err(Error::CurrencyMismatch { left: self.currency, right: other.currency });
        }
        match self.amount.add(other.amount) {
            Some(d) => Ok(Cash { currency: self.currency, amount: d }),
            None => Err(Error::AmountOverflow),
        }
    }

    pub fn sub(self, other: Cash) -> (r: Result<Cash, Error>)
        requires
            self.valid(),
            other.valid(),
        ensures
            r == spec_cash_sub(self, other),
            r matches Ok(c) ==> c.valid(),
    {
        if self.currency != other.currency {
            return Err(Error::CurrencyMismatch { left: self.currency, right: other.currency });
        }
        match self.amount.sub(other.amount) {
            Some(d) => Ok(Cash { currency: self.currency, amount: d }),
            None => Err(Error::AmountOverflow),
        }
    }

    /// Unit price times quantity.
    pub fn scale(self, quantity: u32) -> (r: Result<Cash, Error>)
        requires
            self.valid(),
        ensures
            r == spec_cash_scale(self, quantity),
            r matches Ok(c) ==> c.valid(),
    {
        match self.amount.scale(quantity) {
            Some(d) => Ok(Cash { currency: self.currency, amount: d }),
            None => Err(Error::AmountOverflow),
        }
    }

    pub fn neg(self) -> (r: Cash)
        requires
            self.valid(),
        ensures
            r.currency == self.currency,
            r.amount.units == -self.amount.units,
            r.valid(),
    {
        Cash { currency: self.currency, amount: self.amount.neg() }
    }

    /// The amount rounded to two fractional digits for presentation.
    pub fn round(self) -> (r: Cash)
        requires
            self.valid(),
        ensures
            r.currency == self.currency,
            r.amount.units == crate::decimal::rounded_display(self.amount.units as int),
            r.valid(),
    {
        Cash { currency: self.currency, amount: self.amount.round_display() }
    }
}

/// A cash amount together with the date it settled or was observed.
#[derive(Clone, Copy, Debug, PartialEq, Eq, Structural)]
pub struct CashAssets {
    pub date: Date,
    pub cash: Cash,
}

impl CashAssets {
    pub fn new(date: Date, currency: Currency, amount: Decimal) -> (r: CashAssets)
        ensures
            r == (CashAssets { date, cash: (Cash { currency, amount }) }),
    {
        CashAssets { date, cash: Cash { currency, amount } }
    }

    pub fn new_from_cash(date: Date, cash: Cash) -> (r: CashAssets)
        ensures
            r == (CashAssets { date, cash }),
    {
        CashAssets { date, cash }
    }
}

/// One historical exchange-rate observation: the price of a unit of some
/// currency on a date.
#[derive(Clone, Copy, Debug, PartialEq, Eq, Structural)]
pub struct CurrencyRate {
    pub date: Date,
    pub price: Decimal,
}

} // verus!
