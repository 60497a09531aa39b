use investments::currency::Cash;
use investments::decimal::Decimal;
use investments::error::Error;
use investments::ids::{Currency, Symbol};
use investments::lots::LotBook;

fn d(s: &str) -> Decimal {
    Decimal::from_string(s).unwrap()
}

fn usd() -> Currency {
    Currency::from_code(b"USD").unwrap()
}

fn sym(s: &[u8]) -> Symbol {
    Symbol::from_code(s).unwrap()
}

fn sample_book() -> LotBook {
    let mut book = LotBook::new();
    book.add_lot(sym(b"X"), 10, Cash::new(usd(), d("100")), 1).unwrap();
    book.add_lot(sym(b"X"), 10, Cash::new(usd(), d("120")), 5).unwrap();
    book
}

#[test]
fn consuming_less_than_the_earliest_lot_returns_one_fragment() {
    let mut book = sample_book();
    let fragments = book.consume(sym(b"X"), 4).unwrap();
    assert_eq!(fragments.len(), 1);
    assert_eq!(fragments[0].quantity, 4);
    assert_eq!(fragments[0].price, Cash::new(usd(), d("100")));
    assert_eq!(fragments[0].date, 1);
    assert_eq!(book.open_quantity(sym(b"X")), 16);
}

#[test]
fn consuming_exactly_one_lot_removes_it_and_spares_the_next() {
    let mut book = sample_book();
    let fragments = book.consume(sym(b"X"), 10).unwrap();
    assert_eq!(fragments.len(), 1);
    assert_eq!(fragments[0].quantity, 10);
    assert_eq!(fragments[0].date, 1);
    let next = book.consume(sym(b"X"), 1).unwrap();
    assert_eq!(next[0].price, Cash::new(usd(), d("120")));
    assert_eq!(next[0].date, 5);
    assert_eq!(book.open_quantity(sym(b"X")), 9);
}

#[test]
fn consuming_across_a_lot_boundary_returns_fragments_earliest_first() {
    let mut book = sample_book();
    let fragments = book.consume(sym(b"X"), 15).unwrap();
    assert_eq!(fragments.len(), 2);
    assert_eq!(fragments[0].quantity, 10);
    assert_eq!(fragments[0].price, Cash::new(usd(), d("100")));
    assert_eq!(fragments[0].date, 1);
    assert_eq!(fragments[1].quantity, 5);
    assert_eq!(fragments[1].price, Cash::new(usd(), d("120")));
    assert_eq!(fragments[1].date, 5);
    assert_eq!(book.open_quantity(sym(b"X")), 5);
}

#[test]
fn open_quantity_is_bought_minus_sold_and_never_negative() {
    let mut book = sample_book();
    book.consume(sym(b"X"), 7).unwrap();
    book.consume(sym(b"X"), 5).unwrap();
    assert_eq!(book.open_quantity(sym(b"X")), 8);
    book.consume(sym(b"X"), 8).unwrap();
    assert_eq!(book.open_quantity(sym(b"X")), 0);
}

#[test]
fn over_consumption_fails_and_leaves_the_book_unchanged() {
    let mut book = sample_book();
    book.consume(sym(b"X"), 5).unwrap();
    let err = book.consume(sym(b"X"), 20).unwrap_err();
    assert_eq!(
        err,
        Error::InsufficientQuantity { symbol: sym(b"X"), requested: 20, available: 15 }
    );
    assert_eq!(book.open_quantity(sym(b"X")), 15);
    let fragments = book.consume(sym(b"X"), 15).unwrap();
    assert_eq!(fragments.len(), 2);
    assert_eq!(fragments[0].quantity, 5);
}

#[test]
fn unknown_symbols_are_reported() {
    let mut book = sample_book();
    assert_eq!(
        book.consume(sym(b"Y"), 1),
        Err(Error::UnknownPosition { symbol: sym(b"Y") })
    );
    assert_eq!(book.open_quantity(sym(b"Y")), 0);
}

#[test]
fn bad_lots_are_rejected() {
    let mut book = sample_book();
    assert_eq!(
        book.add_lot(sym(b"X"), 0, Cash::new(usd(), d("1")), 9),
        Err(Error::InvalidLot)
    );
    assert_eq!(
        book.add_lot(sym(b"X"), 1, Cash::new(usd(), d("1")), 5),
        Err(Error::InvalidLot)
    );
    assert_eq!(book.open_quantity(sym(b"X")), 20);
}
