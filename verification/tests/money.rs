use investments::currency::Cash;
use investments::decimal::{round, Decimal};
use investments::error::Error;
use investments::ids::Currency;

fn d(s: &str) -> Decimal {
    Decimal::from_string(s).unwrap()
}

fn usd() -> Currency {
    Currency::from_code(b"USD").unwrap()
}

fn eur() -> Currency {
    Currency::from_code(b"EUR").unwrap()
}

#[test]
fn rounding() {
    assert_eq!(round(d("1")), d("1"));
    assert_eq!(round(d("1.1")), d("1.1"));
    assert_eq!(round(d("1.11")), d("1.11"));
    assert_eq!(round(d("1.111")), d("1.11"));
    assert_eq!(round(d("1.114")), d("1.11"));
    assert_eq!(round(d("1.124")), d("1.12"));
    assert_eq!(round(d("1.115")), d("1.12"));
    assert_eq!(round(d("1.125")), d("1.13"));
}

#[test]
fn rounding_is_idempotent() {
    for s in ["1.115", "1.125", "0.004", "-2.675", "123456.789"] {
        let once = round(d(s));
        assert_eq!(round(once), once);
    }
}

#[test]
fn parsing_builds_exact_fixed_point_amounts() {
    assert_eq!(d("1.5").units, 1_500_000_000);
    assert_eq!(d("-0.25").units, -250_000_000);
    assert_eq!(d("100").units, 100_000_000_000);
    assert_eq!(d("0.000000001").units, 1);
}

#[test]
fn parsing_rejects_garbage_and_too_fine_amounts() {
    assert!(Decimal::from_string("abc").is_none());
    assert!(Decimal::from_string("").is_none());
    assert!(Decimal::from_string("0.0000000001").is_none());
    assert_eq!(
        Cash::new_from_string(b"USD", "xyz"),
        Err(Error::InvalidAmount)
    );
    assert_eq!(Cash::new_from_string(b"", "1.5"), Err(Error::InvalidCode));
}

#[test]
fn positive_amounts_only_where_required() {
    assert!(Cash::new_from_string_positive(b"USD", "1.5").is_ok());
    assert_eq!(
        Cash::new_from_string_positive(b"USD", "0"),
        Err(Error::InvalidAmount)
    );
    assert_eq!(
        Cash::new_from_string_positive(b"USD", "-3"),
        Err(Error::InvalidAmount)
    );
}

#[test]
fn cash_arithmetic_is_currency_checked() {
    let a = Cash::new(usd(), d("10.50"));
    let b = Cash::new(usd(), d("0.25"));
    let c = Cash::new(eur(), d("1"));
    assert_eq!(a.add(b).unwrap(), Cash::new(usd(), d("10.75")));
    assert_eq!(a.sub(b).unwrap(), Cash::new(usd(), d("10.25")));
    assert_eq!(
        a.add(c),
        Err(Error::CurrencyMismatch { left: usd(), right: eur() })
    );
    assert_eq!(a.scale(4).unwrap(), Cash::new(usd(), d("42")));
    assert_eq!(Cash::new(usd(), d("1.005")).round(), Cash::new(usd(), d("1.01")));
}

#[test]
fn currencies_intern_to_equal_values() {
    assert_eq!(usd(), Currency::from_code(b"USD").unwrap());
    assert_ne!(usd(), eur());
    assert_ne!(usd(), Currency::from_code(b"usd").unwrap());
    assert!(Currency::from_code(b"TOOLONGTOOLONGTOO").is_none());
    assert!(Currency::from_code(b" ").is_none());
}
