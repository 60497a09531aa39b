use vstd::prelude::*;
use crate::commissions::{spec_commission, CommissionCalc, CommissionSpec};
use crate::converter::{CurrencyConverter, RateRecord, spec_convert};
use crate::currency::Cash;
use crate::decimal::{fits, half_up_div, rounded_display, Decimal};
use crate::error::Error;
use crate::ids::{Currency, Date, Symbol};
use crate::ledger::{deposit_result, MultiCurrencyCashAccount};
use crate::localities::{spec_tax, Country};
use crate::lots::{
    book_wf, fifo_rest, fifo_take, has_position, spec_lots_for, total_quantity, Lot, LotBook,
    Position,
};
use crate::quotes::{quote_for, Quotes};
use crate::trades::{spec_calculate, StockSell};

verus! {

/// One line of the simulation's trade table: a settled sell and its figures.
#[derive(Clone, Copy, Debug, PartialEq, Eq, Structural)]
pub struct TradeRow {
    pub symbol: Symbol,
    pub quantity: u32,
    pub buy_price: Cash,
    pub sell_price: Cash,
    pub commission: Cash,
    pub revenue: Cash,
    pub local_revenue: Cash,
    pub profit: Cash,
    pub local_profit: Cash,
    pub tax_to_pay: Cash,
    pub real_profit: Option<Decimal>,
    pub real_tax: Option<Decimal>,
    pub real_local_profit: Option<Decimal>,
}

/// One line of the FIFO details table: a consumed fragment, carrying its
/// symbol only on a trade's first fragment.
#[derive(Clone, Copy, Debug, PartialEq, Eq, Structural)]
pub struct FifoRow {
    pub symbol: Option<Symbol>,
    pub quantity: u32,
    pub price: Cash,
}

/// Everything the simulation reports, as plain data for the rendering layer:
/// per-trade rows, per-fragment rows, and the batch totals.
#[derive(Debug)]
pub struct SimulationReport {
    pub same_currency: bool,
    pub trades: Vec<TradeRow>,
    pub fifo: Vec<FifoRow>,
    pub total_commission: MultiCurrencyCashAccount,
    pub total_revenue: MultiCurrencyCashAccount,
    pub total_local_revenue: Cash,
    pub total_profit: MultiCurrencyCashAccount,
    pub total_local_profit: Cash,
    pub tax_to_pay: Cash,
}

/// A sell reduced to its data: symbol, quantity, price, commission,
/// settlement date, and consumed fragments.
pub open spec fn sell_data(sell: StockSell) -> (Symbol, u32, Cash, Cash, Date, Seq<Lot>) {
    (sell.symbol, sell.quantity, sell.price, sell.commission, sell.execution_date, sell.fifo@)
}

pub open spec fn sells_data(sells: Seq<StockSell>) -> Seq<(Symbol, u32, Cash, Cash, Date, Seq<Lot>)> {
    sells.map(|i: int, s: StockSell| sell_data(s))
}

/// Whether every trade already settles in the tax currency, in which case the
/// rendering layer may hide the local columns.
pub open spec fn all_in_currency(
    sells: Seq<(Symbol, u32, Cash, Cash, Date, Seq<Lot>)>,
    c: Currency,
) -> bool {
    forall|i: int|
        0 <= i < sells.len() ==> (#[trigger] sells[i]).2.currency == c && sells[i].3.currency == c
}

/// Folding the batch's extra commissions into the starting totals: each one
/// is withdrawn from the profit total and its converted value, dated today,
/// subtracted from the local profit total.
pub open spec fn commission_fold(
    comm: Seq<Cash>,
    country: Country,
    rates: Seq<RateRecord>,
    today: Date,
    n: int,
) -> Result<(Seq<Cash>, int), Error>
    decreases n,
{
    if n <= 0 {
        Ok((Seq::empty(), 0))
    } else {
        match commission_fold(comm, country, rates, today, n - 1) {
            Err(e) => Err(e),
            Ok(st) => match deposit_result(st.0, comm[n - 1].spec_neg()) {
                Err(e) => Err(e),
                Ok(pb) => match spec_convert(rates, comm[n - 1], today, country.currency) {
                    Err(e) => Err(e),
                    Ok(cv) => if fits(st.1 - cv.amount.units) {
                        Ok((pb, st.1 - cv.amount.units))
                    } else {
                        Err(Error::AmountOverflow)
                    },
                },
            },
        }
    }
}

/// The FIFO-details rows of one trade: one row per fragment, the symbol shown
/// on the first row only.
pub open spec fn fifo_rows_of(symbol: Symbol, fifo: Seq<Lot>) -> Seq<FifoRow> {
    Seq::new(
        fifo.len(),
        |k: int|
            FifoRow {
                symbol: if k == 0 {
                    Some(symbol)
                } else {
                    None
                },
                quantity: fifo[k].quantity,
                price: fifo[k].price,
            },
    )
}

/// Folding settled trades into the report: each trade is settled, its figures
/// are deposited into the running totals, and its table rows are appended.
/// The state is (trade rows, fifo rows, commission balances, revenue
/// balances, local revenue, profit balances, local profit).
pub open spec fn trades_fold(
    sells: Seq<(Symbol, u32, Cash, Cash, Date, Seq<Lot>)>,
    country: Country,
    rates: Seq<RateRecord>,
    st0: (Seq<TradeRow>, Seq<FifoRow>, Seq<Cash>, Seq<Cash>, int, Seq<Cash>, int),
    n: int,
) -> Result<(Seq<TradeRow>, Seq<FifoRow>, Seq<Cash>, Seq<Cash>, int, Seq<Cash>, int), Error>
    decreases n,
{
    if n <= 0 {
        Ok(st0)
    } else {
        match trades_fold(sells, country, rates, st0, n - 1) {
            Err(e) => Err(e),
            Ok(st) => {
                let s = sells[n - 1];
                match spec_calculate(s.5, s.1, s.2, s.3, s.4, country, rates) {
                    Err(e) => Err(e),
                    Ok(d) => match deposit_result(st.2, s.3) {
                        Err(e) => Err(e),
                        Ok(cb) => match deposit_result(st.3, d.revenue) {
                            Err(e) => Err(e),
                            Ok(rb) => if !fits(st.4 + d.local_revenue.amount.units) {
                                Err(Error::AmountOverflow)
                            } else {
                                match deposit_result(st.5, d.profit) {
                                    Err(e) => Err(e),
                                    Ok(pb) => if !fits(st.6 + d.local_profit.amount.units) {
                                        Err(Error::AmountOverflow)
                                    } else {
                                        let row = TradeRow {
                                            symbol: s.0,
                                            quantity: s.1,
                                            buy_price: (Cash {
                                                currency: s.2.currency,
                                                amount: Decimal {
                                                    units: rounded_display(
                                                        half_up_div(
                                                            d.cost_basis.amount.units as int,
                                                            s.1 as int,
                                                        ),
                                                    ) as i128,
                                                },
                                            }),
                                            sell_price: s.2,
                                            commission: s.3,
                                            revenue: d.revenue,
                                            local_revenue: d.local_revenue,
                                            profit: d.profit,
                                            local_profit: d.local_profit,
                                            tax_to_pay: d.tax_due,
                                            real_profit: d.return_ratio,
                                            real_tax: d.effective_tax_ratio,
                                            real_local_profit: d.after_tax_return_ratio,
                                        };
                                        Ok(
                                            (
                                                st.0.push(row),
                                                st.1 + fifo_rows_of(s.0, s.5),
                                                cb,
                                                rb,
                                                st.4 + d.local_revenue.amount.units,
                                                pb,
                                                st.6 + d.local_profit.amount.units,
                                            ),
                                        )
                                    },
                                }
                            },
                        },
                    },
                }
            },
        }
    }
}

/// What the whole report computation yields from the sells' data and the
/// extra commissions: the trades fold started from the commission-adjusted
/// totals, with the extra commissions as the opening commission total.
pub open spec fn print_outcome(
    sells: Seq<(Symbol, u32, Cash, Cash, Date, Seq<Lot>)>,
    comm: Seq<Cash>,
    country: Country,
    rates: Seq<RateRecord>,
    today: Date,
) -> Result<(Seq<TradeRow>, Seq<FifoRow>, Seq<Cash>, Seq<Cash>, int, Seq<Cash>, int), Error> {
    match commission_fold(comm, country, rates, today, comm.len() as int) {
        Err(e) => Err(e),
        Ok(st1) => trades_fold(
            sells,
            country,
            rates,
            (Seq::empty(), Seq::empty(), comm, Seq::empty(), 0, st1.0, st1.1),
            sells.len() as int,
        ),
    }
}

/// The tax the jurisdiction charges on the batch's total local profit,
/// clamped at zero: a net loss generates no tax.
pub open spec fn total_tax_units(country: Country, local_profit: int) -> int {
    let raw = spec_tax(country.tax_rate.units as int, local_profit);
    if raw < 0 {
        0
    } else {
        raw
    }
}

/// Whether a report lays out exactly the folded outcome `st` of a batch whose
/// sells' data is `data`.
pub open spec fn report_matches(
    rep: SimulationReport,
    st: (Seq<TradeRow>, Seq<FifoRow>, Seq<Cash>, Seq<Cash>, int, Seq<Cash>, int),
    data: Seq<(Symbol, u32, Cash, Cash, Date, Seq<Lot>)>,
    country: Country,
) -> bool {
    &&& rep.trades@ == st.0
    &&& rep.fifo@ == st.1
    &&& rep.total_commission.balances@ == st.2
    &&& rep.total_revenue.balances@ == st.3
    &&& rep.total_local_revenue == (Cash {
        currency: country.currency,
        amount: Decimal { units: st.4 as i128 },
    })
    &&& rep.total_profit.balances@ == st.5
    &&& rep.total_local_profit == (Cash {
        currency: country.currency,
        amount: Decimal { units: st.6 as i128 },
    })
    &&& rep.tax_to_pay == (Cash {
        currency: country.currency,
        amount: Decimal { units: total_tax_units(country, st.6) as i128 },
    })
    &&& rep.same_currency == all_in_currency(data, country.currency)
}

proof fn lemma_commission_fold_err(
    comm: Seq<Cash>,
    country: Country,
    rates: Seq<RateRecord>,
    today: Date,
    n: int,
    m: int,
)
    requires
        0 <= n <= m,
        commission_fold(comm, country, rates, today, n) matches Err(_),
    ensures
        commission_fold(comm, country, rates, today, m) == commission_fold(
            comm,
            country,
            rates,
            today,
            n,
        ),
    decreases m - n,
{
    if m > n {
        lemma_commission_fold_err(comm, country, rates, today, n, m - 1);
    }
}

proof fn lemma_trades_fold_err(
    sells: Seq<(Symbol, u32, Cash, Cash, Date, Seq<Lot>)>,
    country: Country,
    rates: Seq<RateRecord>,
    st0: (Seq<TradeRow>, Seq<FifoRow>, Seq<Cash>, Seq<Cash>, int, Seq<Cash>, int),
    n: int,
    m: int,
)
    requires
        0 <= n <= m,
        trades_fold(sells, country, rates, st0, n) matches Err(_),
    ensures
        trades_fold(sells, country, rates, st0, m) == trades_fold(sells, country, rates, st0, n),
    decreases m - n,
{
    if m > n {
        lemma_trades_fold_err(sells, country, rates, st0, n, m - 1);
    }
}

/// Assembles the report of a simulated batch: settles every sell, accumulates
/// the totals (the extra batch commissions reduce the profit figures and seed
/// the commission total), and lays the outcome out as plain rows. Produces
/// data only; rendering belongs to the caller.
pub fn print_results(
    stock_sells: Vec<StockSell>,
    additional_commissions: MultiCurrencyCashAccount,
    country: &Country,
    converter: &CurrencyConverter,
    today: Date,
) -> (r: Result<SimulationReport, Error>)
    requires
        country.valid(),
        additional_commissions.wf(),
        forall|i: int|
            0 <= i < stock_sells@.len() ==> (#[trigger] stock_sells@[i]).wf()
                && stock_sells@[i].quantity >= 1,
    ensures
        ({
            let data = sells_data(stock_sells@);
            let comm = additional_commissions.balances@;
            match print_outcome(data, comm, *country, converter.rates@, today) {
                Err(e) => r == Err::<SimulationReport, Error>(e),
                Ok(st) => r matches Ok(rep) && report_matches(rep, st, data, *country),
            }
        }),
{
    let ghost data = sells_data(stock_sells@);
    let ghost comm = additional_commissions.balances@;
    let ghost rates = converter.rates@;

    let mut same_currency = true;
    let mut k: usize = 0;
    while k < stock_sells.len()
        invariant
            0 <= k <= stock_sells@.len(),
            data == sells_data(stock_sells@),
            same_currency == (forall|i: int|
                0 <= i < k ==> (#[trigger] data[i]).2.currency == country.currency
                    && data[i].3.currency == country.currency),
        decreases stock_sells@.len() - k,
    {
        let t = &stock_sells[k];
        proof {
            assert(data[k as int] == sell_data(stock_sells@[k as int]));
        }
        if !(t.price.currency == country.currency && t.commission.currency == country.currency) {
            same_currency = false;
        }
        k = k + 1;
    }
    proof {
        assert(same_currency == all_in_currency(data, country.currency));
    }

    let mut total_profit = MultiCurrencyCashAccount::new();
    let mut total_local_profit = Cash::new(country.currency, Decimal::zero());
    let mut i: usize = 0;
    while i < additional_commissions.balances.len()
        invariant
            0 <= i <= comm.len(),
            additional_commissions.balances@ == comm,
            additional_commissions.wf(),
            country.valid(),
            commission_fold(comm, *country, rates, today, i as int) == Ok::<(Seq<Cash>, int), Error>(
                (total_profit.balances@, total_local_profit.amount.units as int),
            ),
            total_profit.wf(),
            total_local_profit.currency == country.currency,
            total_local_profit.valid(),
            rates == converter.rates@,
        decreases comm.len() - i,
    {
        let c = additional_commissions.balances[i];
        assert(c.valid());
        match total_profit.withdraw(c) {
            Ok(_) => {},
            Err(e) => {
                proof {
                    lemma_commission_fold_err(comm, *country, rates, today, i + 1, comm.len() as int);
                }
                return Err(e);
            },
        }
        let cv = match converter.convert(c, today, country.currency) {
            Ok(v) => v,
            Err(e) => {
                proof {
                    lemma_commission_fold_err(comm, *country, rates, today, i + 1, comm.len() as int);
                }
                return Err(e);
            },
        };
        total_local_profit = match total_local_profit.sub(cv) {
            Ok(v) => v,
            Err(e) => {
                proof {
                    lemma_commission_fold_err(comm, *country, rates, today, i + 1, comm.len() as int);
                }
                return Err(Error::AmountOverflow);
            },
        };
        i = i + 1;
    }

    let mut total_commission = additional_commissions;
    let mut total_revenue = MultiCurrencyCashAccount::new();
    let mut total_local_revenue = Cash::new(country.currency, Decimal::zero());
    let mut trades_table: Vec<TradeRow> = Vec::new();
    let mut fifo_table: Vec<FifoRow> = Vec::new();
    let ghost st0 = (
        Seq::<TradeRow>::empty(),
        Seq::<FifoRow>::empty(),
        comm,
        Seq::<Cash>::empty(),
        0int,
        total_profit.balances@,
        total_local_profit.amount.units as int,
    );

    proof {
        assert(commission_fold(comm, *country, rates, today, comm.len() as int) == Ok::<
            (Seq<Cash>, int),
            Error,
        >((st0.5, st0.6)));
    }
    let mut j: usize = 0;
    while j < stock_sells.len()
        invariant
            0 <= j <= stock_sells@.len(),
            data == sells_data(stock_sells@),
            comm == additional_commissions.balances@,
            commission_fold(comm, *country, rates, today, comm.len() as int) == Ok::<
                (Seq<Cash>, int),
                Error,
            >((st0.5, st0.6)),
            st0 == (
                Seq::<TradeRow>::empty(),
                Seq::<FifoRow>::empty(),
                comm,
                Seq::<Cash>::empty(),
                0int,
                st0.5,
                st0.6,
            ),
            same_currency == all_in_currency(data, country.currency),
            forall|i2: int|
                0 <= i2 < stock_sells@.len() ==> (#[trigger] stock_sells@[i2]).wf()
                    && stock_sells@[i2].quantity >= 1,
            country.valid(),
            rates == converter.rates@,
            trades_fold(data, *country, rates, st0, j as int) == Ok::<
                (Seq<TradeRow>, Seq<FifoRow>, Seq<Cash>, Seq<Cash>, int, Seq<Cash>, int),
                Error,
            >(
                (
                    trades_table@,
                    fifo_table@,
                    total_commission.balances@,
                    total_revenue.balances@,
                    total_local_revenue.amount.units as int,
                    total_profit.balances@,
                    total_local_profit.amount.units as int,
                ),
            ),
            total_commission.wf(),
            total_revenue.wf(),
            total_profit.wf(),
            total_local_revenue.currency == country.currency,
            total_local_revenue.valid(),
            total_local_profit.currency == country.currency,
            total_local_profit.valid(),
        decreases stock_sells@.len() - j,
    {
        let ghost stj = (
            trades_table@,
            fifo_table@,
            total_commission.balances@,
            total_revenue.balances@,
            total_local_revenue.amount.units as int,
            total_profit.balances@,
            total_local_profit.amount.units as int,
        );
        let trade = &stock_sells[j];
        proof {
            assert(data[j as int] == sell_data(stock_sells@[j as int]));
        }
        let details = match trade.calculate(country, converter) {
            Ok(d) => d,
            Err(e) => {
                proof {
                    lemma_trades_fold_err(
                        data,
                        *country,
                        rates,
                        st0,
                        j + 1,
                        stock_sells@.len() as int,
                    );
                }
                return Err(e);
            },
        };
        if let Err(e) = total_commission.deposit(trade.commission) {
            proof {
                lemma_trades_fold_err(data, *country, rates, st0, j + 1, stock_sells@.len() as int);
            }
            return Err(e);
        }
        if let Err(e) = total_revenue.deposit(details.revenue) {
            proof {
                lemma_trades_fold_err(data, *country, rates, st0, j + 1, stock_sells@.len() as int);
            }
            return Err(e);
        }
        total_local_revenue = match total_local_revenue.add(details.local_revenue) {
            Ok(v) => v,
            Err(e) => {
                proof {
                    lemma_trades_fold_err(
                        data,
                        *country,
                        rates,
                        st0,
                        j + 1,
                        stock_sells@.len() as int,
                    );
                }
                return Err(Error::AmountOverflow);
            },
        };
        if let Err(e) = total_profit.deposit(details.profit) {
            proof {
                lemma_trades_fold_err(data, *country, rates, st0, j + 1, stock_sells@.len() as int);
            }
            return Err(e);
        }
        total_local_profit = match total_local_profit.add(details.local_profit) {
            Ok(v) => v,
            Err(e) => {
                proof {
                    lemma_trades_fold_err(
                        data,
                        *country,
                        rates,
                        st0,
                        j + 1,
                        stock_sells@.len() as int,
                    );
                }
                return Err(Error::AmountOverflow);
            },
        };

        let buy_price = details.cost_basis.amount.div_int(trade.quantity).round_display();
        let row = TradeRow {
            symbol: trade.symbol,
            quantity: trade.quantity,
            buy_price: Cash { currency: trade.price.currency, amount: buy_price },
            sell_price: trade.price,
            commission: trade.commission,
            revenue: details.revenue,
            local_revenue: details.local_revenue,
            profit: details.profit,
            local_profit: details.local_profit,
            tax_to_pay: details.tax_due,
            real_profit: details.return_ratio,
            real_tax: details.effective_tax_ratio,
            real_local_profit: details.after_tax_return_ratio,
        };
        trades_table.push(row);

        let ghost fifo0 = trade.fifo@;
        proof {
            let rows = fifo_rows_of(stock_sells@[j as int].symbol, fifo0);
            assert(rows.take(0) =~= Seq::<FifoRow>::empty());
            assert(fifo_table@ =~= stj.1 + rows.take(0));
        }
        let mut k2: usize = 0;
        while k2 < trade.fifo.len()
            invariant
                0 <= k2 <= fifo0.len(),
                stock_sells@[j as int].fifo@ == fifo0,
                trade.fifo@ == fifo0,
                trade.symbol == stock_sells@[j as int].symbol,
                0 <= j < stock_sells@.len(),
                fifo_table@ == stj.1 + fifo_rows_of(stock_sells@[j as int].symbol, fifo0).take(
                    k2 as int,
                ),
            decreases fifo0.len() - k2,
        {
            proof {
                assert(k2 < fifo0.len());
            }
            let f = trade.fifo[k2];
            let sym_cell: Option<Symbol> = if k2 == 0 {
                Some(trade.symbol)
            } else {
                None
            };
            fifo_table.push(FifoRow { symbol: sym_cell, quantity: f.quantity, price: f.price });
            proof {
                let rows = fifo_rows_of(stock_sells@[j as int].symbol, fifo0);
                assert(trade.symbol == stock_sells@[j as int].symbol);
                assert(f == fifo0[k2 as int]);
                assert(rows[k2 as int].quantity == fifo0[k2 as int].quantity);
                assert(rows[k2 as int].symbol == (if k2 == 0 {
                    Some(stock_sells@[j as int].symbol)
                } else {
                    None::<Symbol>
                }));
                assert(rows[k2 as int] == (FifoRow {
                    symbol: sym_cell,
                    quantity: f.quantity,
                    price: f.price,
                }));
                assert(rows.take(k2 + 1) =~= rows.take(k2 as int).push(rows[k2 as int]));
                assert((stj.1 + rows.take(k2 as int)).push(rows[k2 as int]) =~= stj.1 + rows.take(
                    k2 + 1,
                ));
                assert(fifo_table@ =~= stj.1 + rows.take(k2 + 1));
            }
            k2 = k2 + 1;
        }
        proof {
            let rows = fifo_rows_of(stock_sells@[j as int].symbol, fifo0);
            assert(rows.take(fifo0.len() as int) =~= rows);
        }
        j = j + 1;
    }

    let tax_raw = country.tax_to_pay(total_local_profit.amount);
    let tax_amount = if tax_raw.units < 0 {
        Decimal::zero()
    } else {
        tax_raw
    };
    Ok(
        SimulationReport {
            same_currency,
            trades: trades_table,
            fifo: fifo_table,
            total_commission,
            total_revenue,
            total_local_revenue,
            total_profit,
            total_local_profit,
            tax_to_pay: Cash { currency: country.currency, amount: tax_amount },
        },
    )
}

/// The first requested symbol with no open quantity, in request order; the
/// whole batch is validated before anything else happens.
pub open spec fn first_empty(
    book: Seq<Position>,
    positions: Seq<(Symbol, Option<u32>)>,
    n: int,
) -> Option<Symbol>
    decreases n,
{
    if n <= 0 {
        None
    } else {
        match first_empty(book, positions, n - 1) {
            Some(s) => Some(s),
            None => if total_quantity(spec_lots_for(book, positions[n - 1].0)) == 0 {
                Some(positions[n - 1].0)
            } else {
                None
            },
        }
    }
}

proof fn lemma_first_empty_some(
    book: Seq<Position>,
    positions: Seq<(Symbol, Option<u32>)>,
    n: int,
    m: int,
)
    requires
        0 <= n <= m,
        first_empty(book, positions, n) matches Some(_),
    ensures
        first_empty(book, positions, m) == first_empty(book, positions, n),
    decreases m - n,
{
    if m > n {
        lemma_first_empty_some(book, positions, n, m - 1);
    }
}

/// The lots a book model holds for a symbol.
pub open spec fn model_lots(m: Map<Symbol, Seq<Lot>>, s: Symbol) -> Seq<Lot> {
    if m.contains_key(s) {
        m[s]
    } else {
        Seq::empty()
    }
}

/// A book as a map from symbol to its lots.
pub open spec fn model_of(book: Seq<Position>) -> Map<Symbol, Seq<Lot>>
    decreases book.len(),
{
    if book.len() == 0 {
        Map::empty()
    } else {
        model_of(book.drop_last()).insert(book.last().symbol, book.last().lots@)
    }
}

proof fn lemma_model_of(book: Seq<Position>)
    requires
        book_wf(book),
    ensures
        forall|s: Symbol| #[trigger] model_of(book).contains_key(s) == has_position(book, s),
        forall|s: Symbol| #[trigger] model_lots(model_of(book), s) == spec_lots_for(book, s),
    decreases book.len(),
{
    if book.len() == 0 {
        assert forall|s: Symbol| #[trigger] model_of(book).contains_key(s) == has_position(book, s)
            by {
            assert(!model_of(book).contains_key(s));
        }
    } else {
        let b0 = book.drop_last();
        let last = book.last();
        assert(forall|i: int| 0 <= i < b0.len() ==> #[trigger] b0[i] == book[i]);
        assert(book_wf(b0));
        lemma_model_of(b0);
        assert(model_of(book) == model_of(b0).insert(last.symbol, last.lots@));
        assert forall|i: int| 0 <= i < b0.len() implies (#[trigger] book[i]).symbol != last.symbol
            by {
            assert(book[i].symbol != book[book.len() - 1].symbol);
        }
        assert forall|s: Symbol| #[trigger] model_of(book).contains_key(s) == has_position(book, s)
            by {
            if s == last.symbol {
                assert(model_of(book).contains_key(s));
                assert(book[book.len() - 1].symbol == s);
                assert(has_position(book, s));
            } else {
                assert(model_of(book).contains_key(s) == model_of(b0).contains_key(s));
                assert(model_of(b0).contains_key(s) == has_position(b0, s));
                if has_position(b0, s) {
                    let k = choose|k: int|
                        0 <= k < b0.len() && (#[trigger] b0[k]).symbol == s;
                    assert(book[k].symbol == s);
                    assert(has_position(book, s));
                }
                if has_position(book, s) {
                    let k = choose|k: int|
                        0 <= k < book.len() && (#[trigger] book[k]).symbol == s;
                    assert(k != book.len() - 1);
                    assert(b0[k].symbol == s);
                    assert(has_position(b0, s));
                }
            }
        }
        assert forall|s: Symbol| #[trigger] model_lots(model_of(book), s) == spec_lots_for(book, s)
            by {
            if s == last.symbol {
                assert(model_lots(model_of(book), s) == last.lots@);
                crate::lots::lemma_lots_for_skip(book, s, b0.len() as int);
                assert(book.skip(b0.len() as int)[0] == book[book.len() - 1]);
                assert(book[book.len() - 1] == last);
            } else {
                assert(model_lots(model_of(b0), s) == spec_lots_for(b0, s));
                assert(book[b0.len() as int].symbol != s);
                crate::lots::lemma_lots_for_agree_push(b0, book, s);
                if model_of(b0).contains_key(s) {
                    assert(model_of(book)[s] == model_of(b0)[s]);
                } else {
                    assert(!model_of(book).contains_key(s));
                }
            }
        }
    }
}

/// Folding a simulation batch over the book model: resolve each request's
/// quantity (the whole open position where none is given), look the price up,
/// charge the commission, and consume the lots FIFO — on a model the real
/// history never sees. The state is (book model, accrued commission balances,
/// the synthesized sells' data).
pub open spec fn sim_fold(
    quotes: Seq<crate::quotes::QuoteRecord>,
    schedule: CommissionSpec,
    positions: Seq<(Symbol, Option<u32>)>,
    today: Date,
    st0: (Map<Symbol, Seq<Lot>>, Seq<Cash>, Seq<(Symbol, u32, Cash, Cash, Date, Seq<Lot>)>),
    n: int,
) -> Result<
    (Map<Symbol, Seq<Lot>>, Seq<Cash>, Seq<(Symbol, u32, Cash, Cash, Date, Seq<Lot>)>),
    Error,
>
    decreases n,
{
    if n <= 0 {
        Ok(st0)
    } else {
        match sim_fold(quotes, schedule, positions, today, st0, n - 1) {
            Err(e) => Err(e),
            Ok(st) => {
                let sym = positions[n - 1].0;
                let lots = model_lots(st.0, sym);
                let qr: Result<int, Error> = match positions[n - 1].1 {
                    Some(q) => if q == 0 {
                        Err(Error::InvalidAmount)
                    } else {
                        Ok(q as int)
                    },
                    None => if total_quantity(lots) == 0 {
                        Err(Error::UnknownPosition { symbol: sym })
                    } else {
                        Ok(total_quantity(lots))
                    },
                };
                match qr {
                    Err(e) => Err(e),
                    Ok(q) => match quote_for(quotes, sym) {
                        None => Err(Error::QuoteUnavailable { symbol: sym }),
                        Some(price) => if !st.0.contains_key(sym) {
                            Err(Error::UnknownPosition { symbol: sym })
                        } else if total_quantity(lots) < q {
                            Err(
                                Error::InsufficientQuantity {
                                    symbol: sym,
                                    requested: q as u32,
                                    available: total_quantity(lots) as u32,
                                },
                            )
                        } else {
                            match spec_commission(schedule, q as u32, price) {
                                Err(e) => Err(e),
                                Ok(c) => match deposit_result(st.1, c) {
                                    Err(e) => Err(e),
                                    Ok(cb) => Ok(
                                        (
                                            st.0.insert(sym, fifo_rest(lots, q)),
                                            cb,
                                            st.2.push((sym, q as u32, price, c, today, fifo_take(lots, q))),
                                        ),
                                    ),
                                },
                            }
                        },
                    },
                }
            },
        }
    }
}

proof fn lemma_sim_fold_err(
    quotes: Seq<crate::quotes::QuoteRecord>,
    schedule: CommissionSpec,
    positions: Seq<(Symbol, Option<u32>)>,
    today: Date,
    st0: (Map<Symbol, Seq<Lot>>, Seq<Cash>, Seq<(Symbol, u32, Cash, Cash, Date, Seq<Lot>)>),
    n: int,
    m: int,
)
    requires
        0 <= n <= m,
        sim_fold(quotes, schedule, positions, today, st0, n) matches Err(_),
    ensures
        sim_fold(quotes, schedule, positions, today, st0, m) == sim_fold(
            quotes,
            schedule,
            positions,
            today,
            st0,
            n,
        ),
    decreases m - n,
{
    if m > n {
        lemma_sim_fold_err(quotes, schedule, positions, today, st0, n, m - 1);
    }
}

/// Simulates selling the requested positions against current quotes: every
/// requested symbol must have an open position before anything is consumed;
/// each request then resolves its quantity (the whole open position where
/// none is given), is charged the schedule's commission, consumes the owned
/// book copy FIFO, and is settled; the batch's extra commissions are reported
/// once, in aggregate. Any failure aborts the whole batch. The caller's real
/// history is never touched: the book is this run's owned, disposable copy.
pub fn simulate_sell(
    book: LotBook,
    converter: &CurrencyConverter,
    quotes: &Quotes,
    country: &Country,
    schedule: CommissionSpec,
    positions: &Vec<(Symbol, Option<u32>)>,
    today: Date,
) -> (r: Result<SimulationReport, Error>)
    requires
        book.wf(),
        quotes.wf(),
        country.valid(),
        schedule.valid(),
    ensures
        ({
            let n = positions@.len() as int;
            let st0 = (
                model_of(book.positions@),
                Seq::<Cash>::empty(),
                Seq::<(Symbol, u32, Cash, Cash, Date, Seq<Lot>)>::empty(),
            );
            match first_empty(book.positions@, positions@, n) {
                Some(s) => r == Err::<SimulationReport, Error>(Error::UnknownPosition { symbol: s }),
                None => match sim_fold(quotes.prices@, schedule, positions@, today, st0, n) {
                    Err(e) => r == Err::<SimulationReport, Error>(e),
                    Ok(st) => match print_outcome(st.2, st.1, *country, converter.rates@, today) {
                        Err(e) => r == Err::<SimulationReport, Error>(e),
                        Ok(ps) => r matches Ok(rep) && report_matches(rep, ps, st.2, *country),
                    },
                },
            }
        }),
{
    let ghost book0 = book.positions@;
    let mut work = book;

    let mut i: usize = 0;
    while i < positions.len()
        invariant
            0 <= i <= positions@.len(),
            book0 == book.positions@,
            work.positions@ == book0,
            work.wf(),
            first_empty(book0, positions@, i as int) is None,
        decreases positions@.len() - i,
    {
        let sym = positions[i].0;
        quotes.batch(sym);
        if work.open_quantity(sym) == 0 {
            proof {
                lemma_first_empty_some(book0, positions@, i + 1, positions@.len() as int);
                assert(first_empty(book0, positions@, positions@.len() as int) == Some(sym));
            }
            return Err(Error::UnknownPosition { symbol: sym });
        }
        i = i + 1;
    }

    let mut calc = CommissionCalc::new(schedule);
    let mut sells: Vec<StockSell> = Vec::new();
    let ghost st0 = (
        model_of(book0),
        Seq::<Cash>::empty(),
        Seq::<(Symbol, u32, Cash, Cash, Date, Seq<Lot>)>::empty(),
    );
    proof {
        lemma_model_of(book0);
        assert(sells_data(sells@) =~= st0.2);
    }

    let mut j: usize = 0;
    while j < positions.len()
        invariant
            0 <= j <= positions@.len(),
            work.wf(),
            calc.wf(),
            calc.schedule == schedule,
            schedule.valid(),
            quotes.wf(),
            country.valid(),
            book0 == book.positions@,
            first_empty(book0, positions@, positions@.len() as int) is None,
            st0 == (
                model_of(book0),
                Seq::<Cash>::empty(),
                Seq::<(Symbol, u32, Cash, Cash, Date, Seq<Lot>)>::empty(),
            ),
            sim_fold(quotes.prices@, schedule, positions@, today, st0, j as int) matches Ok(st)
                && (forall|s: Symbol|
                #[trigger] st.0.contains_key(s) == has_position(work.positions@, s)) && (forall|
                s: Symbol|
                #[trigger] model_lots(st.0, s) == spec_lots_for(work.positions@, s)) && st.1
                == calc.total.balances@ && st.2 == sells_data(sells@),
            forall|i2: int|
                0 <= i2 < sells@.len() ==> (#[trigger] sells@[i2]).wf() && sells@[i2].quantity >= 1,
        decreases positions@.len() - j,
    {
        let ghost stj = sim_fold(quotes.prices@, schedule, positions@, today, st0, j as int)->Ok_0;
        let sym = positions[j].0;
        let qopt = positions[j].1;
        let quantity: u32 = match qopt {
            Some(q) => {
                if q == 0 {
                    proof {
                        lemma_sim_fold_err(
                            quotes.prices@,
                            schedule,
                            positions@,
                            today,
                            st0,
                            j + 1,
                            positions@.len() as int,
                        );
                    }
                    return Err(Error::InvalidAmount);
                }
                q
            },
            None => {
                let oq = work.open_quantity(sym);
                if oq == 0 {
                    proof {
                        lemma_sim_fold_err(
                            quotes.prices@,
                            schedule,
                            positions@,
                            today,
                            st0,
                            j + 1,
                            positions@.len() as int,
                        );
                    }
                    return Err(Error::UnknownPosition { symbol: sym });
                }
                oq
            },
        };
        let price = match quotes.get(sym) {
            Ok(p) => p,
            Err(e) => {
                proof {
                    lemma_sim_fold_err(
                        quotes.prices@,
                        schedule,
                        positions@,
                        today,
                        st0,
                        j + 1,
                        positions@.len() as int,
                    );
                }
                return Err(e);
            },
        };
        let ghost lots_before = spec_lots_for(work.positions@, sym);
        let ghost work0 = work.positions@;
        let sell = match crate::trades::emulate_sell(
            &mut work,
            sym,
            quantity,
            price,
            today,
            &mut calc,
        ) {
            Ok(s) => s,
            Err(e) => {
                proof {
                    lemma_sim_fold_err(
                        quotes.prices@,
                        schedule,
                        positions@,
                        today,
                        st0,
                        j + 1,
                        positions@.len() as int,
                    );
                }
                return Err(e);
            },
        };
        let ghost sells_before = sells@;
        sells.push(sell);
        proof {
            let m2 = stj.0.insert(sym, fifo_rest(lots_before, quantity as int));
            assert(sells_data(sells@) =~= sells_data(sells_before).push(sell_data(sell)));
            assert(sell_data(sell) == (
                sym,
                quantity,
                price,
                sell.commission,
                today,
                fifo_take(lots_before, quantity as int),
            ));
            assert forall|s: Symbol| #[trigger] m2.contains_key(s) == has_position(
                work.positions@,
                s,
            ) by {}
            assert forall|s: Symbol| #[trigger] model_lots(m2, s) == spec_lots_for(
                work.positions@,
                s,
            ) by {
                if s == sym {
                    assert(m2[s] == fifo_rest(lots_before, quantity as int));
                } else {
                    assert(model_lots(stj.0, s) == spec_lots_for(work0, s));
                    assert(spec_lots_for(work.positions@, s) == spec_lots_for(work0, s));
                    if stj.0.contains_key(s) {
                        assert(m2[s] == stj.0[s]);
                    } else {
                        assert(!m2.contains_key(s));
                    }
                }
            }
            assert(sim_fold(quotes.prices@, schedule, positions@, today, st0, j + 1) == Ok::<
                (Map<Symbol, Seq<Lot>>, Seq<Cash>, Seq<(Symbol, u32, Cash, Cash, Date, Seq<Lot>)>),
                Error,
            >((m2, calc.total.balances@, sells_data(sells@))));
        }
        j = j + 1;
    }

    let additional_commissions = calc.calculate();
    print_results(sells, additional_commissions, country, converter, today)
}


} // verus!
