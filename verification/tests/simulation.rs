use investments::commissions::{CommissionCalc, CommissionSpec};
use investments::converter::CurrencyConverter;
use investments::currency::Cash;
use investments::decimal::Decimal;
use investments::error::Error;
use investments::ids::{Currency, Symbol};
use investments::ledger::MultiCurrencyCashAccount;
use investments::localities::Country;
use investments::lots::LotBook;
use investments::quotes::Quotes;
use investments::sell_simulation::{print_results, simulate_sell};

fn d(s: &str) -> Decimal {
    Decimal::from_string(s).unwrap()
}

fn usd() -> Currency {
    Currency::from_code(b"USD").unwrap()
}

fn sym(s: &[u8]) -> Symbol {
    Symbol::from_code(s).unwrap()
}

fn country() -> Country {
    Country::new(usd(), d("0.13"))
}

fn schedule() -> CommissionSpec {
    CommissionSpec { currency: usd(), fraction: d("0"), minimum: d("5") }
}

fn sample_book() -> LotBook {
    let mut book = LotBook::new();
    book.add_lot(sym(b"X"), 10, Cash::new(usd(), d("100")), 1).unwrap();
    book.add_lot(sym(b"X"), 10, Cash::new(usd(), d("120")), 5).unwrap();
    book
}

#[test]
fn unknown_position_fails_fast_before_any_quote_lookup() {
    // No quote is registered for any symbol: were quotes fetched first, the
    // error would be QuoteUnavailable. Validation must win.
    let quotes = Quotes::new();
    let positions = vec![(sym(b"Y"), None), (sym(b"X"), Some(5))];
    let r = simulate_sell(
        sample_book(),
        &CurrencyConverter::new(),
        &quotes,
        &country(),
        schedule(),
        &positions,
        10,
    );
    assert_eq!(r.unwrap_err(), Error::UnknownPosition { symbol: sym(b"Y") });
}

#[test]
fn simulates_a_batch_end_to_end() {
    let mut quotes = Quotes::new();
    quotes.add_quote(sym(b"X"), Cash::new(usd(), d("150")));
    let positions = vec![(sym(b"X"), Some(15))];
    let report = simulate_sell(
        sample_book(),
        &CurrencyConverter::new(),
        &quotes,
        &country(),
        schedule(),
        &positions,
        10,
    )
    .unwrap();

    assert!(report.same_currency);
    assert_eq!(report.trades.len(), 1);
    let row = &report.trades[0];
    assert_eq!(row.symbol, sym(b"X"));
    assert_eq!(row.quantity, 15);
    assert_eq!(row.buy_price, Cash::new(usd(), d("106.67")));
    assert_eq!(row.sell_price, Cash::new(usd(), d("150")));
    assert_eq!(row.commission, Cash::new(usd(), d("5")));
    assert_eq!(row.revenue, Cash::new(usd(), d("2245")));
    assert_eq!(row.profit, Cash::new(usd(), d("645")));
    assert_eq!(row.tax_to_pay, Cash::new(usd(), d("83.85")));

    assert_eq!(report.fifo.len(), 2);
    assert_eq!(report.fifo[0].symbol, Some(sym(b"X")));
    assert_eq!(report.fifo[0].quantity, 10);
    assert_eq!(report.fifo[0].price, Cash::new(usd(), d("100")));
    assert_eq!(report.fifo[1].symbol, None);
    assert_eq!(report.fifo[1].quantity, 5);
    assert_eq!(report.fifo[1].price, Cash::new(usd(), d("120")));

    // The batch commission reduces the profit totals and seeds the
    // commission total: 5 from the schedule, once per trade.
    assert_eq!(report.total_local_profit, Cash::new(usd(), d("640")));
    assert_eq!(report.total_local_revenue, Cash::new(usd(), d("2245")));
    assert_eq!(report.tax_to_pay, Cash::new(usd(), d("83.2")));
    assert_eq!(report.total_commission.balances, vec![Cash::new(usd(), d("10"))]);
    assert_eq!(report.total_revenue.balances, vec![Cash::new(usd(), d("2245"))]);
    assert_eq!(report.total_profit.balances, vec![Cash::new(usd(), d("640"))]);
}

#[test]
fn an_omitted_quantity_sells_the_whole_open_position() {
    let mut quotes = Quotes::new();
    quotes.add_quote(sym(b"X"), Cash::new(usd(), d("150")));
    let positions = vec![(sym(b"X"), None)];
    let report = simulate_sell(
        sample_book(),
        &CurrencyConverter::new(),
        &quotes,
        &country(),
        schedule(),
        &positions,
        10,
    )
    .unwrap();
    assert_eq!(report.trades[0].quantity, 20);
    assert_eq!(report.trades[0].revenue, Cash::new(usd(), d("2995")));
}

#[test]
fn a_missing_quote_aborts_the_batch() {
    let quotes = Quotes::new();
    let positions = vec![(sym(b"X"), Some(5))];
    let r = simulate_sell(
        sample_book(),
        &CurrencyConverter::new(),
        &quotes,
        &country(),
        schedule(),
        &positions,
        10,
    );
    assert_eq!(r.unwrap_err(), Error::QuoteUnavailable { symbol: sym(b"X") });
}

#[test]
fn requesting_more_than_open_aborts_the_batch() {
    let mut quotes = Quotes::new();
    quotes.add_quote(sym(b"X"), Cash::new(usd(), d("150")));
    let positions = vec![(sym(b"X"), Some(25))];
    let r = simulate_sell(
        sample_book(),
        &CurrencyConverter::new(),
        &quotes,
        &country(),
        schedule(),
        &positions,
        10,
    );
    assert_eq!(
        r.unwrap_err(),
        Error::InsufficientQuantity { symbol: sym(b"X"), requested: 25, available: 20 }
    );
}

#[test]
fn commissions_follow_the_schedule_with_a_minimum() {
    let cs = CommissionSpec { currency: usd(), fraction: d("0.001"), minimum: d("2") };
    let mut calc = CommissionCalc::new(cs);
    // 10 * 100 * 0.001 = 1.00, below the 2 minimum.
    let low = calc.add_trade(10, Cash::new(usd(), d("100"))).unwrap();
    assert_eq!(low, Cash::new(usd(), d("2")));
    // 100 * 100 * 0.001 = 10.00, above the minimum.
    let high = calc.add_trade(100, Cash::new(usd(), d("100"))).unwrap();
    assert_eq!(high, Cash::new(usd(), d("10")));
    let total = calc.calculate();
    assert_eq!(total.balances, vec![Cash::new(usd(), d("12"))]);
}

#[test]
fn print_results_reports_an_empty_batch_as_zero_totals() {
    let report = print_results(
        Vec::new(),
        MultiCurrencyCashAccount::new(),
        &country(),
        &CurrencyConverter::new(),
        10,
    )
    .unwrap();
    assert!(report.same_currency);
    assert!(report.trades.is_empty());
    assert!(report.fifo.is_empty());
    assert_eq!(report.total_local_profit, Cash::new(usd(), d("0")));
    assert_eq!(report.tax_to_pay, Cash::new(usd(), d("0")));
}
