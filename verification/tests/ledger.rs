use investments::converter::CurrencyConverter;
use investments::currency::{Cash, CashAssets, CurrencyRate};
use investments::decimal::Decimal;
use investments::error::Error;
use investments::ids::Currency;
use investments::ledger::MultiCurrencyCashAccount;

fn d(s: &str) -> Decimal {
    Decimal::from_string(s).unwrap()
}

fn usd() -> Currency {
    Currency::from_code(b"USD").unwrap()
}

fn eur() -> Currency {
    Currency::from_code(b"EUR").unwrap()
}

#[test]
fn one_balance_per_currency_in_first_deposit_order() {
    let mut account = MultiCurrencyCashAccount::new();
    account.deposit(Cash::new(usd(), d("5"))).unwrap();
    account.deposit(Cash::new(eur(), d("3"))).unwrap();
    account.deposit(Cash::new(usd(), d("2"))).unwrap();
    account.withdraw(Cash::new(eur(), d("4"))).unwrap();
    assert_eq!(
        account.balances,
        vec![Cash::new(usd(), d("7")), Cash::new(eur(), d("-1"))]
    );
}

#[test]
fn converted_additions_use_the_dated_rate() {
    let mut converter = CurrencyConverter::new();
    converter.add_rate(eur(), usd(), CurrencyRate { date: 7, price: d("1.25") });
    let mut account = MultiCurrencyCashAccount::new();
    account.add_converted(Cash::new(eur(), d("8")), 7, usd(), &converter).unwrap();
    assert_eq!(account.balances, vec![Cash::new(usd(), d("10"))]);

    let missing = account.add_converted(Cash::new(eur(), d("8")), 8, usd(), &converter);
    assert_eq!(
        missing,
        Err(Error::ConversionUnavailable { from: eur(), to: usd(), date: 8 })
    );
    assert_eq!(account.balances, vec![Cash::new(usd(), d("10"))]);
}

#[test]
fn conversion_is_identity_within_one_currency() {
    let converter = CurrencyConverter::new();
    let cash = Cash::new(usd(), d("12.34"));
    assert_eq!(converter.convert(cash, 1, usd()).unwrap(), cash);
}

#[test]
fn cash_assets_pair_a_date_with_an_amount() {
    let cash = Cash::new(usd(), d("9.99"));
    let assets = CashAssets::new_from_cash(42, cash);
    assert_eq!(assets.date, 42);
    assert_eq!(assets.cash, cash);
    assert_eq!(CashAssets::new(42, usd(), d("9.99")), assets);
}
