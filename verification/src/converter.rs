use vstd::prelude::*;
use crate::currency::{Cash, CurrencyRate};
use crate::decimal::{spec_mul, Decimal};
use crate::error::Error;
use crate::ids::{Currency, Date};

verus! {

/// One recorded exchange rate: a unit of `from` is worth `rate.price` of
/// `to` on `rate.date`.
#[derive(Clone, Copy, Debug, PartialEq, Eq, Structural)]
pub struct RateRecord {
    pub from: Currency,
    pub to: Currency,
    pub rate: CurrencyRate,
}

/// The rate recorded for a currency pair at a date: the latest-added entry
/// wins, none if the pair was never recorded for that date.
pub open spec fn rate_for(rates: Seq<RateRecord>, from: Currency, to: Currency, date: Date) -> Option<
    Decimal,
>
    decreases rates.len(),
{
    if rates.len() == 0 {
        None
    } else if rates.last().from == from && rates.last().to == to && rates.last().rate.date == date {
        Some(rates.last().rate.price)
    } else {
        rate_for(rates.drop_last(), from, to, date)
    }
}

/// What converting a cash amount at a date yields: the amount unchanged when
/// already in the target currency, the exact rate-multiplied amount when a
/// rate is recorded, and the precise failure otherwise. There is no fallback
/// to a nearby date.
pub open spec fn spec_convert(rates: Seq<RateRecord>, cash: Cash, date: Date, to: Currency) -> Result<
    Cash,
    Error,
> {
    if cash.currency == to {
        Ok(cash)
    } else {
        match rate_for(rates, cash.currency, to, date) {
            None => Err(Error::ConversionUnavailable { from: cash.currency, to, date }),
            Some(rate) => match spec_mul(cash.amount, rate) {
                Some(d) => Ok((Cash { currency: to, amount: d })),
                None => Err(Error::AmountOverflow),
            },
        }
    }
}

/// A dated historical-rate table. The surrounding program fills it from its
/// rate source; the engine only ever reads it.
pub struct CurrencyConverter {
    pub rates: Vec<RateRecord>,
}

impl CurrencyConverter {
    pub fn new() -> (r: CurrencyConverter)
        ensures
            r.rates@ == Seq::<RateRecord>::empty(),
    {
        CurrencyConverter { rates: Vec::new() }
    }

    pub fn add_rate(&mut self, from: Currency, to: Currency, rate: CurrencyRate)
        ensures
            final(self).rates@ == old(self).rates@.push((RateRecord { from, to, rate })),
    {
        self.rates.push(RateRecord { from, to, rate });
    }

    /// Converts `cash` into `to` at the rate recorded for `date`.
    pub fn convert(&self, cash: Cash, date: Date, to: Currency) -> (r: Result<Cash, Error>)
        requires
            cash.valid(),
        ensures
            r == spec_convert(self.rates@, cash, date, to),
            r matches Ok(c) ==> c.valid() && c.currency == to,
    {
        if cash.currency == to {
            return Ok(cash);
        }
        let ghost s = self.rates@;
        let mut i: usize = self.rates.len();
        proof {
            assert(s.take(s.len() as int) =~= s);
        }
        while i > 0
            invariant
                0 <= i <= s.len(),
                self.rates@ == s,
                cash.currency != to,
                cash.valid(),
                rate_for(s, cash.currency, to, date) == rate_for(
                    s.take(i as int),
                    cash.currency,
                    to,
                    date,
                ),
            decreases i,
        {
            i = i - 1;
            let rec = self.rates[i];
            proof {
                assert(s.take(i + 1).drop_last() =~= s.take(i as int));
                assert(s.take(i + 1).last() == s[i as int]);
            }
            if rec.from == cash.currency && rec.to == to && rec.rate.date == date {
                return match cash.amount.mul(rec.rate.price) {
                    Some(d) => Ok(Cash { currency: to, amount: d }),
                    None => Err(Error::AmountOverflow),
                };
            }
        }
        proof {
            assert(s.take(0) =~= Seq::<RateRecord>::empty());
        }
        Err(Error::ConversionUnavailable { from: cash.currency, to, date })
    }
}

} // verus!
