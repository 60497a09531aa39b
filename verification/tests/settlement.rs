use investments::converter::CurrencyConverter;
use investments::currency::{Cash, CurrencyRate};
use investments::decimal::Decimal;
use investments::error::Error;
use investments::ids::{Currency, Symbol};
use investments::localities::Country;
use investments::lots::LotBook;
use investments::trades::StockSell;

fn d(s: &str) -> Decimal {
    Decimal::from_string(s).unwrap()
}

fn usd() -> Currency {
    Currency::from_code(b"USD").unwrap()
}

fn eur() -> Currency {
    Currency::from_code(b"EUR").unwrap()
}

fn sym(s: &[u8]) -> Symbol {
    Symbol::from_code(s).unwrap()
}

fn country() -> Country {
    Country::new(usd(), d("0.13"))
}

#[test]
fn settles_a_two_lot_sell_exactly() {
    let mut book = LotBook::new();
    book.add_lot(sym(b"X"), 10, Cash::new(usd(), d("100")), 1).unwrap();
    book.add_lot(sym(b"X"), 10, Cash::new(usd(), d("120")), 5).unwrap();
    let fifo = book.consume(sym(b"X"), 15).unwrap();
    let sell = StockSell {
        symbol: sym(b"X"),
        quantity: 15,
        price: Cash::new(usd(), d("150")),
        commission: Cash::new(usd(), d("5")),
        execution_date: 10,
        emulation: true,
        fifo,
    };
    let converter = CurrencyConverter::new();
    let result = sell.calculate(&country(), &converter).unwrap();
    assert_eq!(result.cost_basis, Cash::new(usd(), d("1600")));
    assert_eq!(result.revenue, Cash::new(usd(), d("2245")));
    assert_eq!(result.profit, Cash::new(usd(), d("645")));
    assert_eq!(result.local_revenue, Cash::new(usd(), d("2245")));
    assert_eq!(result.local_profit, Cash::new(usd(), d("645")));
    assert_eq!(result.tax_due, Cash::new(usd(), d("83.85")));
    assert_eq!(result.return_ratio, Some(d("0.403125")));
    assert_eq!(result.effective_tax_ratio, Some(d("0.13")));
    assert!(result.after_tax_return_ratio.is_some());
}

#[test]
fn cost_basis_converts_each_fragment_at_its_own_date() {
    let mut book = LotBook::new();
    book.add_lot(sym(b"Z"), 1, Cash::new(eur(), d("100")), 1).unwrap();
    book.add_lot(sym(b"Z"), 1, Cash::new(eur(), d("100")), 2).unwrap();
    let fifo = book.consume(sym(b"Z"), 2).unwrap();
    let mut converter = CurrencyConverter::new();
    converter.add_rate(eur(), usd(), CurrencyRate { date: 1, price: d("1.1") });
    converter.add_rate(eur(), usd(), CurrencyRate { date: 2, price: d("1.3") });
    let sell = StockSell {
        symbol: sym(b"Z"),
        quantity: 2,
        price: Cash::new(usd(), d("200")),
        commission: Cash::new(usd(), d("0")),
        execution_date: 9,
        emulation: true,
        fifo,
    };
    let result = sell.calculate(&country(), &converter).unwrap();
    // 100 EUR at 1.1 plus 100 EUR at 1.3 — not a pre-summed 200 EUR at
    // either single date, which would give 220 or 260.
    assert_eq!(result.cost_basis, Cash::new(usd(), d("240")));
    assert_eq!(result.profit, Cash::new(usd(), d("160")));
}

#[test]
fn missing_rates_abort_with_the_pair_and_date() {
    let mut book = LotBook::new();
    book.add_lot(sym(b"Z"), 1, Cash::new(eur(), d("100")), 3).unwrap();
    let fifo = book.consume(sym(b"Z"), 1).unwrap();
    let converter = CurrencyConverter::new();
    let sell = StockSell {
        symbol: sym(b"Z"),
        quantity: 1,
        price: Cash::new(usd(), d("200")),
        commission: Cash::new(usd(), d("0")),
        execution_date: 9,
        emulation: true,
        fifo,
    };
    assert_eq!(
        sell.calculate(&country(), &converter),
        Err(Error::ConversionUnavailable { from: eur(), to: usd(), date: 3 })
    );
}

#[test]
fn mismatched_commission_currency_is_a_hard_error() {
    let mut book = LotBook::new();
    book.add_lot(sym(b"X"), 1, Cash::new(usd(), d("10")), 1).unwrap();
    let fifo = book.consume(sym(b"X"), 1).unwrap();
    let sell = StockSell {
        symbol: sym(b"X"),
        quantity: 1,
        price: Cash::new(usd(), d("10")),
        commission: Cash::new(eur(), d("1")),
        execution_date: 2,
        emulation: true,
        fifo,
    };
    assert_eq!(
        sell.calculate(&country(), &CurrencyConverter::new()),
        Err(Error::CurrencyMismatch { left: usd(), right: eur() })
    );
}

#[test]
fn after_tax_ratio_is_absent_exactly_when_local_revenue_is_zero() {
    let mut book = LotBook::new();
    book.add_lot(sym(b"X"), 5, Cash::new(usd(), d("1")), 1).unwrap();
    let fifo = book.consume(sym(b"X"), 5).unwrap();
    // 5 * 1 - 5 = 0 revenue, so the ratio must be absent, not a crash.
    let sell = StockSell {
        symbol: sym(b"X"),
        quantity: 5,
        price: Cash::new(usd(), d("1")),
        commission: Cash::new(usd(), d("5")),
        execution_date: 2,
        emulation: true,
        fifo,
    };
    let result = sell.calculate(&country(), &CurrencyConverter::new()).unwrap();
    assert_eq!(result.local_revenue, Cash::new(usd(), d("0")));
    assert_eq!(result.after_tax_return_ratio, None);
    assert_eq!(result.effective_tax_ratio, None);
    assert_eq!(result.tax_due, Cash::new(usd(), d("0")));
    assert_eq!(result.profit, Cash::new(usd(), d("-5")));
    assert!(result.return_ratio.is_some());

    // A profitable sell of the same shape keeps the ratio present.
    let mut book2 = LotBook::new();
    book2.add_lot(sym(b"X"), 5, Cash::new(usd(), d("1")), 1).unwrap();
    let fifo2 = book2.consume(sym(b"X"), 5).unwrap();
    let sell2 = StockSell {
        symbol: sym(b"X"),
        quantity: 5,
        price: Cash::new(usd(), d("3")),
        commission: Cash::new(usd(), d("1")),
        execution_date: 2,
        emulation: true,
        fifo: fifo2,
    };
    let result2 = sell2.calculate(&country(), &CurrencyConverter::new()).unwrap();
    assert!(result2.local_revenue.amount.units != 0);
    assert!(result2.after_tax_return_ratio.is_some());
}

#[test]
fn tax_rule_is_flat_and_rounded() {
    let c = country();
    assert_eq!(c.tax_to_pay(d("645")), d("83.85"));
    assert_eq!(c.tax_to_pay(d("100.03")), d("13.00"));
    assert_eq!(c.tax_to_pay(d("-100")), d("-13"));
}
