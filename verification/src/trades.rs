use vstd::prelude::*;
use crate::commissions::{spec_commission, CommissionCalc};
use crate::converter::{spec_convert, CurrencyConverter, RateRecord};
use crate::currency::{spec_cash_scale, spec_cash_sub, Cash};
use crate::decimal::{fits, spec_div, Decimal};
use crate::error::Error;
use crate::ids::{Currency, Date, Symbol};
use crate::ledger::deposit_result;
use crate::localities::{spec_tax, Country};
use crate::lots::{fifo_rest, fifo_take, has_position, spec_lots_for, total_quantity, Lot, LotBook};

verus! {

/// One disposal, real or simulated: what was sold, at what price, with what
/// commission, on what date, and the FIFO fragments it consumed.
pub struct StockSell {
    pub symbol: Symbol,
    pub quantity: u32,
    pub price: Cash,
    pub commission: Cash,
    pub execution_date: Date,
    pub emulation: bool,
    pub fifo: Vec<Lot>,
}

/// Everything a settled trade reports. Immutable once produced. Ratios are
/// absent exactly where they are not meaningful: the return ratio where the
/// cost basis is zero, the effective tax ratio where the local profit is not
/// positive, and the after-tax return ratio where the local revenue is zero.
#[derive(Clone, Copy, Debug, PartialEq, Eq, Structural)]
pub struct TradeResult {
    pub cost_basis: Cash,
    pub revenue: Cash,
    pub local_revenue: Cash,
    pub profit: Cash,
    pub local_profit: Cash,
    pub tax_due: Cash,
    pub return_ratio: Option<Decimal>,
    pub effective_tax_ratio: Option<Decimal>,
    pub after_tax_return_ratio: Option<Decimal>,
}

/// The cost basis of the first `n` fragments: each fragment's quantity times
/// its lot price, converted into the sell currency at the fragment's own
/// acquisition date, summed one by one — never a conversion of a pre-summed
/// total, so date-dependent rate differences are preserved.
pub open spec fn cost_basis_partial(
    rates: Seq<RateRecord>,
    fifo: Seq<Lot>,
    to: Currency,
    n: int,
) -> Result<int, Error>
    decreases n,
{
    if n <= 0 {
        Ok(0)
    } else {
        match cost_basis_partial(rates, fifo, to, n - 1) {
            Err(e) => Err(e),
            Ok(acc) => match spec_cash_scale(fifo[n - 1].price, fifo[n - 1].quantity) {
                Err(e) => Err(e),
                Ok(v) => match spec_convert(rates, v, fifo[n - 1].date, to) {
                    Err(e) => Err(e),
                    Ok(c) => if fits(acc + c.amount.units) {
                        Ok(acc + c.amount.units)
                    } else {
                        Err(Error::AmountOverflow)
                    },
                },
            },
        }
    }
}

/// The cost basis of a whole fragment run.
pub open spec fn cost_basis_result(rates: Seq<RateRecord>, fifo: Seq<Lot>, to: Currency) -> Result<
    int,
    Error,
> {
    cost_basis_partial(rates, fifo, to, fifo.len() as int)
}

/// Once a prefix of the fragment run fails, every longer prefix fails the
/// same way.
proof fn lemma_cost_basis_err(rates: Seq<RateRecord>, fifo: Seq<Lot>, to: Currency, n: int, m: int)
    requires
        0 <= n <= m,
        cost_basis_partial(rates, fifo, to, n) matches Err(_),
    ensures
        cost_basis_partial(rates, fifo, to, m) == cost_basis_partial(rates, fifo, to, n),
    decreases m - n,
{
    if m > n {
        lemma_cost_basis_err(rates, fifo, to, n, m - 1);
    }
}

/// The cost basis of a fragment run, each fragment valued at its own
/// acquisition date and summed individually.
fn cost_basis(converter: &CurrencyConverter, fifo: &Vec<Lot>, to: Currency) -> (r: Result<
    Cash,
    Error,
>)
    requires
        forall|i: int| 0 <= i < fifo@.len() ==> (#[trigger] fifo@[i]).price.valid(),
    ensures
        r == (match cost_basis_result(converter.rates@, fifo@, to) {
            Ok(v) => Ok::<Cash, Error>((Cash { currency: to, amount: Decimal { units: v as i128 } })),
            Err(e) => Err::<Cash, Error>(e),
        }),
        r matches Ok(c) ==> c.valid() && c.currency == to,
    {
        let ghost s = fifo@;
        let mut acc = Decimal::zero();
        let mut i: usize = 0;
        while i < fifo.len()
            invariant
                0 <= i <= s.len(),
                fifo@ == s,
                forall|j: int| 0 <= j < s.len() ==> (#[trigger] s[j]).price.valid(),
                cost_basis_partial(converter.rates@, s, to, i as int) == Ok::<int, Error>(
                    acc.units as int,
                ),
                acc.valid(),
            decreases s.len() - i,
        {
            let frag = fifo[i];
            let scaled = match frag.price.scale(frag.quantity) {
                Ok(v) => v,
                Err(e) => {
                    proof {
                        lemma_cost_basis_err(converter.rates@, s, to, i + 1, s.len() as int);
                    }
                    return Err(e);
                },
            };
            let converted = match converter.convert(scaled, frag.date, to) {
                Ok(c) => c,
                Err(e) => {
                    proof {
                        lemma_cost_basis_err(converter.rates@, s, to, i + 1, s.len() as int);
                    }
                    return Err(e);
                },
            };
            acc = match acc.add(converted.amount) {
                Some(d) => d,
                None => {
                    proof {
                        lemma_cost_basis_err(converter.rates@, s, to, i + 1, s.len() as int);
                    }
                    return Err(Error::AmountOverflow);
                },
            };
            i = i + 1;
        }
        Ok(Cash { currency: to, amount: acc })
    }

/// The whole settlement of one sell, step by step: cost basis from the FIFO
/// fragments valued at their acquisition dates; revenue as price times
/// quantity less commission; profit as revenue less cost basis; the local
/// figures converted at the settlement date; tax by the jurisdiction's rule,
/// clamped at zero so a loss generates no tax; and the three ratios, each
/// absent exactly where it is not meaningful.
pub open spec fn spec_calculate(
    fifo: Seq<Lot>,
    quantity: u32,
    price: Cash,
    commission: Cash,
    date: Date,
    country: Country,
    rates: Seq<RateRecord>,
) -> Result<TradeResult, Error> {
    match cost_basis_result(rates, fifo, price.currency) {
        Err(e) => Err(e),
        Ok(cbu) => {
            let cost_basis = Cash {
                currency: price.currency,
                amount: Decimal { units: cbu as i128 },
            };
            match spec_cash_scale(price, quantity) {
                Err(e) => Err(e),
                Ok(gross) => match spec_cash_sub(gross, commission) {
                    Err(e) => Err(e),
                    Ok(revenue) => match spec_cash_sub(revenue, cost_basis) {
                        Err(e) => Err(e),
                        Ok(profit) => match spec_convert(
                            rates,
                            revenue,
                            date,
                            country.currency,
                        ) {
                            Err(e) => Err(e),
                            Ok(local_revenue) => match spec_convert(
                                rates,
                                profit,
                                date,
                                country.currency,
                            ) {
                                Err(e) => Err(e),
                                Ok(local_profit) => spec_ratios(
                                    country,
                                    cost_basis,
                                    revenue,
                                    local_revenue,
                                    profit,
                                    local_profit,
                                ),
                            },
                        },
                    },
                },
            }
        },
    }
}

/// The tax figure and the three ratios that close a settlement.
pub open spec fn spec_ratios(
    country: Country,
    cost_basis: Cash,
    revenue: Cash,
    local_revenue: Cash,
    profit: Cash,
    local_profit: Cash,
) -> Result<TradeResult, Error> {
    let tax_raw = spec_tax(country.tax_rate.units as int, local_profit.amount.units as int);
    let tax_units = if tax_raw < 0 {
        0
    } else {
        tax_raw
    };
    let tax_due = Cash { currency: country.currency, amount: Decimal { units: tax_units as i128 } };
    let rr = if cost_basis.amount.units == 0 {
        Ok(None)
    } else {
        match spec_div(profit.amount, cost_basis.amount) {
            Some(d) => Ok(Some(d)),
            None => Err::<Option<Decimal>, Error>(Error::AmountOverflow),
        }
    };
    match rr {
        Err(e) => Err(e),
        Ok(return_ratio) => {
            let tr = if local_profit.amount.units <= 0 {
                Ok(None)
            } else {
                match spec_div(tax_due.amount, local_profit.amount) {
                    Some(d) => Ok(Some(d)),
                    None => Err::<Option<Decimal>, Error>(Error::AmountOverflow),
                }
            };
            match tr {
                Err(e) => Err(e),
                Ok(effective_tax_ratio) => {
                    let ar = if local_revenue.amount.units == 0 {
                        Ok(None)
                    } else {
                        match spec_cash_sub(local_profit, tax_due) {
                            Err(e) => Err::<Option<Decimal>, Error>(e),
                            Ok(net) => match spec_div(net.amount, local_revenue.amount) {
                                Some(d) => Ok(Some(d)),
                                None => Err::<Option<Decimal>, Error>(Error::AmountOverflow),
                            },
                        }
                    };
                    match ar {
                        Err(e) => Err(e),
                        Ok(after_tax_return_ratio) => Ok(
                            (TradeResult {
                                cost_basis,
                                revenue,
                                local_revenue,
                                profit,
                                local_profit,
                                tax_due,
                                return_ratio,
                                effective_tax_ratio,
                                after_tax_return_ratio,
                            }),
                        ),
                    }
                },
            }
        },
    }
}

impl StockSell {
    pub open spec fn wf(self) -> bool {
        &&& self.price.valid()
        &&& self.commission.valid()
        &&& forall|i: int| 0 <= i < self.fifo@.len() ==> (#[trigger] self.fifo@[i]).price.valid()
    }

    /// Settles this sell against the jurisdiction and the historical rates.
    pub fn calculate(&self, country: &Country, converter: &CurrencyConverter) -> (r: Result<
        TradeResult,
        Error,
    >)
        requires
            self.wf(),
            country.valid(),
        ensures
            r == spec_calculate(
                self.fifo@,
                self.quantity,
                self.price,
                self.commission,
                self.execution_date,
                *country,
                converter.rates@,
            ),
            r matches Ok(t) ==> (t.after_tax_return_ratio is None <==> t.local_revenue.amount.units
                == 0),
            r matches Ok(t) ==> (t.effective_tax_ratio is None <==> t.local_profit.amount.units
                <= 0),
            r matches Ok(t) ==> (t.return_ratio is None <==> t.cost_basis.amount.units == 0),
            r matches Ok(t) ==> t.cost_basis.valid() && t.revenue.valid() && t.local_revenue.valid()
                && t.profit.valid() && t.local_profit.valid() && t.tax_due.valid(),
            r matches Ok(t) ==> t.cost_basis.currency == self.price.currency && t.revenue.currency
                == self.price.currency && t.profit.currency == self.price.currency
                && t.local_revenue.currency == country.currency && t.local_profit.currency
                == country.currency && t.tax_due.currency == country.currency,
    {
        let cost_basis = cost_basis(converter, &self.fifo, self.price.currency)?;
        let gross = self.price.scale(self.quantity)?;
        let revenue = gross.sub(self.commission)?;
        let profit = revenue.sub(cost_basis)?;
        let local_revenue = converter.convert(revenue, self.execution_date, country.currency)?;
        let local_profit = converter.convert(profit, self.execution_date, country.currency)?;
        let tax_raw = country.tax_to_pay(local_profit.amount);
        let tax_amount = if tax_raw.units < 0 {
            Decimal::zero()
        } else {
            tax_raw
        };
        let tax_due = Cash { currency: country.currency, amount: tax_amount };
        let return_ratio = if cost_basis.amount.is_zero() {
            None
        } else {
            match profit.amount.div(cost_basis.amount) {
                Some(d) => Some(d),
                None => {
                    return Err(Error::AmountOverflow);
                },
            }
        };
        let effective_tax_ratio = if !local_profit.amount.is_positive() {
            None
        } else {
            match tax_due.amount.div(local_profit.amount) {
                Some(d) => Some(d),
                None => {
                    return Err(Error::AmountOverflow);
                },
            }
        };
        let after_tax_return_ratio = if local_revenue.amount.is_zero() {
            None
        } else {
            let net = local_profit.sub(tax_due)?;
            match net.amount.div(local_revenue.amount) {
                Some(d) => Some(d),
                None => {
                    return Err(Error::AmountOverflow);
                },
            }
        };
        Ok(
            TradeResult {
                cost_basis,
                revenue,
                local_revenue,
                profit,
                local_profit,
                tax_due,
                return_ratio,
                effective_tax_ratio,
                after_tax_return_ratio,
            },
        )
    }
}

/// Synthesizes a simulated sell: charges its commission, consumes the
/// symbol's lots FIFO from the book copy, and records the consumed fragments
/// on the sell event. The real history is never touched: the caller hands in
/// the disposable book this run owns.
pub fn emulate_sell(
    book: &mut LotBook,
    symbol: Symbol,
    quantity: u32,
    price: Cash,
    date: Date,
    calc: &mut CommissionCalc,
) -> (r: Result<StockSell, Error>)
    requires
        old(book).wf(),
        old(calc).wf(),
        price.valid(),
        quantity >= 1,
    ensures
        final(book).wf(),
        final(calc).wf(),
        final(calc).schedule == old(calc).schedule,
        ({
            let lots = spec_lots_for(old(book).positions@, symbol);
            if !has_position(old(book).positions@, symbol) {
                r == Err::<StockSell, Error>(Error::UnknownPosition { symbol })
                    && final(book).positions@ == old(book).positions@
                    && final(calc).total.balances@ == old(calc).total.balances@
            } else if total_quantity(lots) < quantity {
                r == Err::<StockSell, Error>(
                    Error::InsufficientQuantity {
                        symbol,
                        requested: quantity,
                        available: total_quantity(lots) as u32,
                    },
                ) && final(book).positions@ == old(book).positions@
                    && final(calc).total.balances@ == old(calc).total.balances@
            } else {
                &&& spec_lots_for(final(book).positions@, symbol) == fifo_rest(
                    lots,
                    quantity as int,
                )
                &&& forall|s2: Symbol|
                    s2 != symbol ==> spec_lots_for(final(book).positions@, s2)
                        == spec_lots_for(old(book).positions@, s2)
                &&& forall|s2: Symbol|
                    has_position(final(book).positions@, s2) == has_position(
                        old(book).positions@,
                        s2,
                    )
                &&& match spec_commission(old(calc).schedule, quantity, price) {
                    Err(e) => r == Err::<StockSell, Error>(e) && final(calc).total.balances@
                        == old(calc).total.balances@,
                    Ok(c) => match deposit_result(old(calc).total.balances@, c) {
                        Err(e2) => r == Err::<StockSell, Error>(e2)
                            && final(calc).total.balances@ == old(calc).total.balances@,
                        Ok(t) => final(calc).total.balances@ == t && (r matches Ok(sell)
                            && sell.symbol == symbol && sell.quantity == quantity && sell.price
                            == price && sell.commission == c && sell.execution_date == date
                            && sell.emulation == true && sell.fifo@ == fifo_take(
                            lots,
                            quantity as int,
                        ) && sell.wf()),
                    }
                }
            }
        }),
{
    let ghost lots = spec_lots_for(book.positions@, symbol);
    proof {
        crate::lots::lemma_lots_for_wf(book.positions@, symbol);
    }
    let fragments = book.consume(symbol, quantity)?;
    proof {
        crate::lots::lemma_total_nonneg(lots);
        crate::lots::lemma_fifo_props(lots, quantity as int);
    }
    let commission = calc.add_trade(quantity, price)?;
    Ok(
        StockSell {
            symbol,
            quantity,
            price,
            commission,
            execution_date: date,
            emulation: true,
            fifo: fragments,
        },
    )
}

} // verus!
