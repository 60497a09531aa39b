use vstd::prelude::*;
use crate::currency::Cash;
use crate::error::Error;
use crate::ids::{Date, Symbol};

verus! {

/// One acquisition lot: a quantity bought at a unit price on a date. A lot
/// only ever shrinks (through consumption) and is removed once empty; it is
/// never re-ordered. A consumed fragment has the same shape.
#[derive(Clone, Copy, Debug, PartialEq, Eq, Structural)]
pub struct Lot {
    pub quantity: u32,
    pub price: Cash,
    pub date: Date,
}

/// A symbol's open lots, earliest acquisition first.
pub struct Position {
    pub symbol: Symbol,
    pub lots: Vec<Lot>,
}

/// The sum of the lots' quantities.
pub open spec fn total_quantity(lots: Seq<Lot>) -> int
    decreases lots.len(),
{
    if lots.len() == 0 {
        0
    } else {
        lots[0].quantity + total_quantity(lots.drop_first())
    }
}

/// A well-formed lot queue: no empty lot, representable prices, strictly
/// chronological order, and a total that stays in quantity range.
pub open spec fn lots_wf(lots: Seq<Lot>) -> bool {
    &&& forall|i: int|
        0 <= i < lots.len() ==> (#[trigger] lots[i]).quantity >= 1 && lots[i].price.valid()
    &&& forall|i: int, j: int| 0 <= i < j < lots.len() ==> lots[i].date < lots[j].date
    &&& total_quantity(lots) <= u32::MAX
}

/// The fragments a FIFO consumption of `q` takes, earliest lot first: whole
/// lots while they fit, then one partial fragment of the lot it stops in.
pub open spec fn fifo_take(lots: Seq<Lot>, q: int) -> Seq<Lot>
    decreases lots.len(),
{
    if q <= 0 || lots.len() == 0 {
        Seq::empty()
    } else if q < lots[0].quantity {
        seq![(Lot { quantity: q as u32, price: lots[0].price, date: lots[0].date })]
    } else {
        seq![lots[0]] + fifo_take(lots.drop_first(), q - lots[0].quantity)
    }
}

/// The lots left after a FIFO consumption of `q`: fully-consumed lots are
/// removed, a partially-consumed lot keeps its place with what remains.
pub open spec fn fifo_rest(lots: Seq<Lot>, q: int) -> Seq<Lot>
    decreases lots.len(),
{
    if q <= 0 || lots.len() == 0 {
        lots
    } else if q < lots[0].quantity {
        seq![
            (Lot {
                quantity: (lots[0].quantity - q) as u32,
                price: lots[0].price,
                date: lots[0].date,
            }),
        ] + lots.drop_first()
    } else {
        fifo_rest(lots.drop_first(), q - lots[0].quantity)
    }
}

/// The lots a book holds for a symbol; empty where the symbol is unknown.
pub open spec fn spec_lots_for(book: Seq<Position>, symbol: Symbol) -> Seq<Lot>
    decreases book.len(),
{
    if book.len() == 0 {
        Seq::empty()
    } else if book[0].symbol == symbol {
        book[0].lots@
    } else {
        spec_lots_for(book.drop_first(), symbol)
    }
}

pub open spec fn has_position(book: Seq<Position>, symbol: Symbol) -> bool {
    exists|i: int| 0 <= i < book.len() && (#[trigger] book[i]).symbol == symbol
}

pub open spec fn book_wf(book: Seq<Position>) -> bool {
    &&& forall|i: int| 0 <= i < book.len() ==> lots_wf((#[trigger] book[i]).lots@)
    &&& forall|i: int, j: int|
        0 <= i < j < book.len() ==> (#[trigger] book[i]).symbol != (#[trigger] book[j]).symbol
}

pub proof fn lemma_total_nonneg(lots: Seq<Lot>)
    ensures
        total_quantity(lots) >= 0,
    decreases lots.len(),
{
    if lots.len() > 0 {
        lemma_total_nonneg(lots.drop_first());
    }
}

proof fn lemma_total_split(lots: Seq<Lot>, i: int)
    requires
        0 <= i <= lots.len(),
    ensures
        total_quantity(lots) == total_quantity(lots.take(i)) + total_quantity(lots.skip(i)),
    decreases i,
{
    if i == 0 {
        assert(lots.take(0) =~= Seq::<Lot>::empty());
        assert(lots.skip(0) =~= lots);
    } else {
        assert(lots.len() > 0);
        assert(lots.take(i).drop_first() =~= lots.drop_first().take(i - 1));
        assert(lots.skip(i) =~= lots.drop_first().skip(i - 1));
        assert(lots.take(i)[0] == lots[0]);
        lemma_total_split(lots.drop_first(), i - 1);
    }
}

/// FIFO consumption conserves quantity: what is taken plus what remains is
/// what was there, the remainder is still a well-formed queue, and the taken
/// fragments are non-empty, representable, and total exactly `q`.
pub proof fn lemma_fifo_props(lots: Seq<Lot>, q: int)
    requires
        lots_wf(lots),
        0 <= q <= total_quantity(lots),
    ensures
        lots_wf(fifo_rest(lots, q)),
        total_quantity(fifo_rest(lots, q)) == total_quantity(lots) - q,
        total_quantity(fifo_take(lots, q)) == q,
        forall|i: int|
            0 <= i < fifo_take(lots, q).len() ==> (#[trigger] fifo_take(lots, q)[i]).quantity >= 1
                && fifo_take(lots, q)[i].price.valid(),
    decreases lots.len(),
{
    lemma_total_nonneg(lots);
    assert(total_quantity(Seq::<Lot>::empty()) == 0);
    if q <= 0 || lots.len() == 0 {
    } else {
        lemma_total_nonneg(lots.drop_first());
        assert(lots_wf(lots.drop_first())) by {
            assert(forall|i: int|
                0 <= i < lots.drop_first().len() ==> #[trigger] lots.drop_first()[i] == lots[i
                    + 1]);
        }
        if q < lots[0].quantity {
            let rest = fifo_rest(lots, q);
            assert(forall|i: int| 1 <= i < rest.len() ==> #[trigger] rest[i] == lots[i]);
            assert(rest.drop_first() =~= lots.drop_first());
            assert(total_quantity(rest) == rest[0].quantity + total_quantity(lots.drop_first()));
            assert(fifo_take(lots, q).drop_first() =~= Seq::<Lot>::empty());
            assert(lots_wf(rest));
        } else {
            lemma_fifo_props(lots.drop_first(), q - lots[0].quantity);
            let tk = fifo_take(lots.drop_first(), q - lots[0].quantity);
            assert((seq![lots[0]] + tk).drop_first() =~= tk);
            assert((seq![lots[0]] + tk)[0] == lots[0]);
            assert(forall|i: int|
                1 <= i < fifo_take(lots, q).len() ==> #[trigger] fifo_take(lots, q)[i] == tk[i
                    - 1]);
        }
    }
}

/// Law: consuming less than the earliest lot holds returns a single fragment
/// carrying that earliest lot's price and acquisition date, and only shrinks
/// that lot in place.
pub proof fn lemma_fifo_single_lot(lots: Seq<Lot>, q: int)
    requires
        lots.len() > 0,
        0 < q < lots[0].quantity,
    ensures
        fifo_take(lots, q) == seq![
            (Lot { quantity: q as u32, price: lots[0].price, date: lots[0].date }),
        ],
        fifo_rest(lots, q) == seq![
            (Lot {
                quantity: (lots[0].quantity - q) as u32,
                price: lots[0].price,
                date: lots[0].date,
            }),
        ] + lots.drop_first(),
{
}

/// Law: consuming exactly the earliest lot's quantity removes that lot and
/// leaves the later lots untouched.
pub proof fn lemma_fifo_exact_lot(lots: Seq<Lot>, q: int)
    requires
        lots.len() > 0,
        lots[0].quantity >= 1,
        q == lots[0].quantity,
    ensures
        fifo_take(lots, q) == seq![lots[0]],
        fifo_rest(lots, q) == lots.drop_first(),
{
    assert(seq![lots[0]] + fifo_take(lots.drop_first(), 0) =~= seq![lots[0]]);
    assert(fifo_rest(lots.drop_first(), 0) == lots.drop_first());
}

/// Law: consuming across a lot boundary returns fragments covering both lots,
/// earliest first: the whole first lot, then the remainder out of the second.
pub proof fn lemma_fifo_across_lots(lots: Seq<Lot>, q: int)
    requires
        lots.len() >= 2,
        lots[0].quantity >= 1,
        lots[1].quantity >= 1,
        lots[0].quantity < q <= lots[0].quantity + lots[1].quantity,
    ensures
        fifo_take(lots, q) == seq![
            lots[0],
            (Lot {
                quantity: (q - lots[0].quantity) as u32,
                price: lots[1].price,
                date: lots[1].date,
            }),
        ],
{
    let q1 = q - lots[0].quantity;
    assert(lots.drop_first()[0] == lots[1]);
    if q1 < lots[1].quantity {
        assert(seq![lots[0]] + fifo_take(lots.drop_first(), q1) =~= seq![
            lots[0],
            (Lot { quantity: q1 as u32, price: lots[1].price, date: lots[1].date }),
        ]);
    } else {
        assert(seq![lots[1]] + fifo_take(lots.drop_first().drop_first(), 0) =~= seq![lots[1]]);
        assert(seq![lots[0]] + fifo_take(lots.drop_first(), q1) =~= seq![lots[0], lots[1]]);
        assert((Lot { quantity: q1 as u32, price: lots[1].price, date: lots[1].date }) == lots[1]);
    }
}

/// The lots left after a run of FIFO sells, each applied to what the one
/// before it left.
pub open spec fn remaining_after_sells(lots: Seq<Lot>, sells: Seq<int>) -> Seq<Lot>
    decreases sells.len(),
{
    if sells.len() == 0 {
        lots
    } else {
        remaining_after_sells(fifo_rest(lots, sells[0]), sells.drop_first())
    }
}

pub open spec fn sum_seq(s: Seq<int>) -> int
    decreases s.len(),
{
    if s.len() == 0 {
        0
    } else {
        s[0] + sum_seq(s.drop_first())
    }
}

proof fn lemma_sum_nonneg(s: Seq<int>)
    requires
        forall|i: int| 0 <= i < s.len() ==> 0 <= #[trigger] s[i],
    ensures
        sum_seq(s) >= 0,
    decreases s.len(),
{
    if s.len() > 0 {
        assert(forall|i: int| 0 <= i < s.drop_first().len() ==> #[trigger] s.drop_first()[i] == s[i
            + 1]);
        lemma_sum_nonneg(s.drop_first());
    }
}

/// Law: after buy lots are followed by any run of sells that never exceeds
/// the total bought, the open quantity equals bought minus sold and is never
/// negative, and the queue stays well formed.
pub proof fn lemma_fifo_conservation(lots: Seq<Lot>, sells: Seq<int>)
    requires
        lots_wf(lots),
        forall|i: int| 0 <= i < sells.len() ==> 0 <= #[trigger] sells[i],
        sum_seq(sells) <= total_quantity(lots),
    ensures
        lots_wf(remaining_after_sells(lots, sells)),
        total_quantity(remaining_after_sells(lots, sells)) == total_quantity(lots) - sum_seq(
            sells,
        ),
        total_quantity(remaining_after_sells(lots, sells)) >= 0,
    decreases sells.len(),
{
    if sells.len() == 0 {
        lemma_total_nonneg(lots);
    } else {
        let rest = sells.drop_first();
        assert(forall|i: int| 0 <= i < rest.len() ==> #[trigger] rest[i] == sells[i + 1]);
        lemma_sum_nonneg(rest);
        lemma_fifo_props(lots, sells[0]);
        lemma_fifo_conservation(fifo_rest(lots, sells[0]), rest);
    }
}

/// Prefixes of a symbol lookup that hold no match can be skipped.
pub(crate) proof fn lemma_lots_for_skip(book: Seq<Position>, symbol: Symbol, i: int)
    requires
        0 <= i <= book.len(),
        forall|j: int| 0 <= j < i ==> (#[trigger] book[j]).symbol != symbol,
    ensures
        spec_lots_for(book, symbol) == spec_lots_for(book.skip(i), symbol),
        has_position(book, symbol) == has_position(book.skip(i), symbol),
    decreases i,
{
    if i == 0 {
        assert(book.skip(0) =~= book);
    } else {
        assert(book.drop_first().skip(i - 1) =~= book.skip(i));
        assert(forall|j: int|
            0 <= j < book.drop_first().len() ==> #[trigger] book.drop_first()[j] == book[j + 1]);
        lemma_lots_for_skip(book.drop_first(), symbol, i - 1);
        assert(has_position(book, symbol) == has_position(book.drop_first(), symbol)) by {
            if has_position(book, symbol) {
                let k = choose|k: int|
                    0 <= k < book.len() && (#[trigger] book[k]).symbol == symbol;
                assert(book.drop_first()[k - 1] == book[k]);
            }
            if has_position(book.drop_first(), symbol) {
                let k = choose|k: int|
                    0 <= k < book.drop_first().len() && (#[trigger] book.drop_first()[k]).symbol
                        == symbol;
                assert(book[k + 1] == book.drop_first()[k]);
            }
        }
    }
}

/// Whatever lots a well-formed book gives out for a symbol form a
/// well-formed queue.
pub proof fn lemma_lots_for_wf(book: Seq<Position>, symbol: Symbol)
    requires
        book_wf(book),
    ensures
        lots_wf(spec_lots_for(book, symbol)),
    decreases book.len(),
{
    assert(total_quantity(Seq::<Lot>::empty()) == 0);
    if book.len() == 0 {
    } else if book[0].symbol == symbol {
        assert(lots_wf(book[0].lots@));
    } else {
        assert(book_wf(book.drop_first())) by {
            assert(forall|j: int|
                0 <= j < book.drop_first().len() ==> #[trigger] book.drop_first()[j] == book[j
                    + 1]);
        }
        lemma_lots_for_wf(book.drop_first(), symbol);
    }
}

fn sum_lots(lots: &Vec<Lot>) -> (r: u32)
    requires
        lots_wf(lots@),
    ensures
        r == total_quantity(lots@),
{
    let ghost s = lots@;
    let mut acc: u32 = 0;
    let mut i: usize = 0;
    proof {
        assert(s.take(0) =~= Seq::<Lot>::empty());
        lemma_total_split(s, 0);
    }
    while i < lots.len()
        invariant
            0 <= i <= s.len(),
            lots@ == s,
            lots_wf(s),
            acc == total_quantity(s.take(i as int)),
        decreases s.len() - i,
    {
        proof {
            lemma_total_split(s, i as int);
            lemma_total_split(s, i + 1);
            lemma_total_nonneg(s.skip(i + 1));
            assert(s.skip(i as int)[0] == s[i as int]);
            assert(s.skip(i as int).drop_first() =~= s.skip(i + 1));
            assert(total_quantity(s.skip(i as int)) == s[i as int].quantity + total_quantity(
                s.skip(i + 1),
            ));
        }
        acc = acc + lots[i].quantity;
        i = i + 1;
    }
    proof {
        assert(s.take(s.len() as int) =~= s);
    }
    acc
}

/// The per-symbol FIFO book of open acquisition lots.
pub struct LotBook {
    pub positions: Vec<Position>,
}

impl LotBook {
    pub open spec fn wf(self) -> bool {
        book_wf(self.positions@)
    }

    pub fn new() -> (r: LotBook)
        ensures
            r.positions@ == Seq::<Position>::empty(),
            r.wf(),
    {
        LotBook { positions: Vec::new() }
    }

    fn find_position(&self, symbol: Symbol) -> (r: Option<usize>)
        ensures
            match r {
                Some(i) => 0 <= i < self.positions@.len() && self.positions@[i as int].symbol
                    == symbol && spec_lots_for(self.positions@, symbol)
                    == self.positions@[i as int].lots@ && has_position(self.positions@, symbol),
                None => !has_position(self.positions@, symbol) && spec_lots_for(
                    self.positions@,
                    symbol,
                ) == Seq::<Lot>::empty(),
            },
    {
        let ghost s = self.positions@;
        let mut i: usize = 0;
        while i < self.positions.len()
            invariant
                0 <= i <= s.len(),
                self.positions@ == s,
                forall|j: int| 0 <= j < i ==> (#[trigger] s[j]).symbol != symbol,
            decreases s.len() - i,
        {
            proof {
                lemma_lots_for_skip(s, symbol, i as int);
                assert(s.skip(i as int)[0] == s[i as int]);
                assert(s.skip(i as int).drop_first() =~= s.skip(i + 1));
            }
            if self.positions[i].symbol == symbol {
                return Some(i);
            }
            i = i + 1;
        }
        proof {
            lemma_lots_for_skip(s, symbol, s.len() as int);
            assert(s.skip(s.len() as int) =~= Seq::<Position>::empty());
        }
        None
    }

    /// The symbol's currently open quantity: the sum of its lots' quantities,
    /// zero where the symbol is unknown.
    pub fn open_quantity(&self, symbol: Symbol) -> (r: u32)
        requires
            self.wf(),
        ensures
            r == total_quantity(spec_lots_for(self.positions@, symbol)),
    {
        match self.find_position(symbol) {
            Some(i) => sum_lots(&self.positions[i].lots),
            None => 0,
        }
    }

    /// Records a buy: appends a lot to the symbol's queue, creating the
    /// position if new. Rejected (leaving the book unchanged) where the lot
    /// would break the invariant: an empty lot, a date not after the last
    /// lot's, or a total beyond the quantity range.
    pub fn add_lot(&mut self, symbol: Symbol, quantity: u32, price: Cash, date: Date) -> (r: Result<
        (),
        Error,
    >)
        requires
            old(self).wf(),
            price.valid(),
        ensures
            ({
                let lots = spec_lots_for(old(self).positions@, symbol);
                let lot = (Lot { quantity, price, date });
                if quantity < 1 || total_quantity(lots) + quantity > u32::MAX || (lots.len() > 0
                    && lots.last().date >= date) {
                    r == Err::<(), Error>(Error::InvalidLot)
                        && final(self).positions@ == old(self).positions@
                } else {
                    r == Ok::<(), Error>(()) && final(self).wf() && spec_lots_for(
                        final(self).positions@,
                        symbol,
                    ) == lots.push(lot)
                        && final(self).positions@.len() >= old(self).positions@.len()
                        && (forall|s2: Symbol|
                        s2 != symbol ==> spec_lots_for(final(self).positions@, s2)
                            == spec_lots_for(old(self).positions@, s2))
                }
            }),
    {
        let ghost book0 = self.positions@;
        if quantity < 1 {
            return Err(Error::InvalidLot);
        }
        let lot = Lot { quantity, price, date };
        match self.find_position(symbol) {
            Some(i) => {
                let total = sum_lots(&self.positions[i].lots);
                let lots_len = self.positions[i].lots.len();
                if (u32::MAX - total < quantity) || (lots_len > 0 && self.positions[i].lots[
                    lots_len - 1].date >= date) {
                    proof {
                        if lots_len > 0 {
                            assert(book0[i as int].lots@.last() == book0[i as int].lots@[lots_len
                                - 1]);
                        }
                    }
                    return Err(Error::InvalidLot);
                }
                let mut pos = self.positions.remove(i);
                pos.lots.push(lot);
                proof {
                    let lots = book0[i as int].lots@;
                    lemma_total_nonneg(lots);
                    assert(lots_wf(lots.push(lot))) by {
                        assert(forall|k: int|
                            0 <= k < lots.len() ==> #[trigger] lots.push(lot)[k] == lots[k]);
                        lemma_total_split(lots.push(lot), lots.len() as int);
                        assert(lots.push(lot).take(lots.len() as int) =~= lots);
                        assert(lots.push(lot).skip(lots.len() as int) =~= seq![lot]);
                        assert(total_quantity(seq![lot]) == quantity + total_quantity(
                            Seq::<Lot>::empty(),
                        )) by {
                            assert(seq![lot].drop_first() =~= Seq::<Lot>::empty());
                        }
                        assert(forall|a: int, b: int|
                            0 <= a < b < lots.push(lot).len() ==> lots.push(lot)[a].date
                                < lots.push(lot)[b].date) by {
                            assert(forall|a: int|
                                0 <= a < lots.len() - 1 ==> lots[a].date < (#[trigger] lots[a
                                    + 1]).date);
                            if lots.len() > 0 {
                                assert(lots.last().date < date);
                            }
                        }
                    }
                }
                self.positions.insert(i, pos);
                proof {
                    lemma_book_update(book0, self.positions@, i as int, symbol);
                }
                Ok(())
            },
            None => {
                let mut lots_vec: Vec<Lot> = Vec::new();
                lots_vec.push(lot);
                proof {
                    assert(lots_vec@ =~= seq![lot]);
                    assert(seq![lot].drop_first() =~= Seq::<Lot>::empty());
                    assert(seq![lot][0] == lot);
                    assert(total_quantity(Seq::<Lot>::empty()) == 0);
                    assert(total_quantity(seq![lot]) == quantity);
                    assert(lots_wf(seq![lot]));
                    assert(Seq::<Lot>::empty().push(lot) =~= seq![lot]);
                }
                self.positions.push(Position { symbol, lots: lots_vec });
                proof {
                    lemma_book_push(book0, self.positions@, symbol);
                }
                Ok(())
            },
        }
    }

    /// Consumes `quantity` from the symbol's queue in FIFO order. Fails, with
    /// the book left untouched, where the symbol is unknown or the queue
    /// holds less than requested.
    pub fn consume(&mut self, symbol: Symbol, quantity: u32) -> (r: Result<Vec<Lot>, Error>)
        requires
            old(self).wf(),
            quantity >= 1,
        ensures
            final(self).wf(),
            ({
                let lots = spec_lots_for(old(self).positions@, symbol);
                if !has_position(old(self).positions@, symbol) {
                    r == Err::<Vec<Lot>, Error>(Error::UnknownPosition { symbol })
                        && final(self).positions@ == old(self).positions@
                } else if total_quantity(lots) < quantity {
                    r == Err::<Vec<Lot>, Error>(
                        Error::InsufficientQuantity {
                            symbol,
                            requested: quantity,
                            available: total_quantity(lots) as u32,
                        },
                    ) && final(self).positions@ == old(self).positions@
                } else {
                    &&& r matches Ok(v) && v@ == fifo_take(lots, quantity as int)
                    &&& spec_lots_for(final(self).positions@, symbol) == fifo_rest(
                        lots,
                        quantity as int,
                    )
                    &&& final(self).positions@.len() == old(self).positions@.len()
                    &&& forall|s2: Symbol|
                        s2 != symbol ==> spec_lots_for(final(self).positions@, s2)
                            == spec_lots_for(old(self).positions@, s2)
                    &&& forall|s2: Symbol|
                        has_position(final(self).positions@, s2) == has_position(
                            old(self).positions@,
                            s2,
                        )
                }
            }),
    {
        let ghost book0 = self.positions@;
        let idx = match self.find_position(symbol) {
            Some(i) => i,
            None => {
                return Err(Error::UnknownPosition { symbol });
            },
        };
        let available = sum_lots(&self.positions[idx].lots);
        if available < quantity {
            return Err(
                Error::InsufficientQuantity { symbol, requested: quantity, available },
            );
        }
        let mut pos = self.positions.remove(idx);
        let ghost lots0 = pos.lots@;
        let mut taken: Vec<Lot> = Vec::new();
        let mut rem: u32 = quantity;
        proof {
            lemma_total_nonneg(lots0);
            assert(taken@ + fifo_take(lots0, rem as int) =~= fifo_take(lots0, rem as int));
        }
        while rem > 0
            invariant
                lots_wf(pos.lots@),
                0 <= rem <= total_quantity(pos.lots@),
                fifo_take(lots0, quantity as int) == taken@ + fifo_take(pos.lots@, rem as int),
                fifo_rest(lots0, quantity as int) == fifo_rest(pos.lots@, rem as int),
                pos.symbol == symbol,
            decreases rem,
        {
            let ghost cur = pos.lots@;
            proof {
                lemma_total_nonneg(cur.drop_first());
                assert(cur.len() > 0);
            }
            let first = pos.lots[0];
            if rem < first.quantity {
                let reduced = Lot {
                    quantity: first.quantity - rem,
                    price: first.price,
                    date: first.date,
                };
                let fragment = Lot { quantity: rem, price: first.price, date: first.date };
                let removed = pos.lots.remove(0);
                pos.lots.insert(0, reduced);
                taken.push(fragment);
                proof {
                    assert(cur.remove(0) =~= cur.drop_first());
                    assert(pos.lots@ =~= seq![reduced] + cur.drop_first());
                    assert(fifo_take(cur, rem as int) == seq![fragment]);
                    assert(taken@ =~= (taken@.drop_last()) + seq![fragment]);
                    assert(taken@.drop_last() + fifo_take(cur, rem as int) =~= taken@);
                    assert(fifo_rest(cur, rem as int) == pos.lots@);
                    lemma_fifo_props(cur, rem as int);
                    assert(fifo_take(pos.lots@, 0) =~= Seq::<Lot>::empty());
                    assert(taken@ + fifo_take(pos.lots@, 0) =~= taken@);
                }
                rem = 0;
            } else {
                let removed = pos.lots.remove(0);
                taken.push(removed);
                proof {
                    assert(cur.remove(0) =~= cur.drop_first());
                    assert(pos.lots@ =~= cur.drop_first());
                    assert(fifo_take(cur, rem as int) == seq![first] + fifo_take(
                        cur.drop_first(),
                        rem - first.quantity,
                    ));
                    assert(taken@ =~= taken@.drop_last() + seq![first]);
                    assert((taken@.drop_last() + seq![first]) + fifo_take(
                        cur.drop_first(),
                        rem - first.quantity as int,
                    ) =~= taken@.drop_last() + (seq![first] + fifo_take(
                        cur.drop_first(),
                        rem - first.quantity as int,
                    )));
                    assert(lots_wf(cur.drop_first())) by {
                        assert(forall|k: int|
                            0 <= k < cur.drop_first().len() ==> #[trigger] cur.drop_first()[k]
                                == cur[k + 1]);
                    }
                }
                rem = rem - first.quantity;
            }
        }
        proof {
            assert(fifo_take(pos.lots@, 0) =~= Seq::<Lot>::empty());
            assert(taken@ + Seq::<Lot>::empty() =~= taken@);
        }
        self.positions.insert(idx, pos);
        proof {
            lemma_book_update(book0, self.positions@, idx as int, symbol);
        }
        Ok(taken)
    }
}

/// Replacing the position at the index of `symbol` with a well-formed queue
/// for the same symbol changes that symbol's lots and nothing else.
proof fn lemma_book_update(book0: Seq<Position>, book1: Seq<Position>, i: int, symbol: Symbol)
    requires
        book_wf(book0),
        0 <= i < book0.len(),
        book0[i].symbol == symbol,
        book1.len() == book0.len(),
        book1[i].symbol == symbol,
        lots_wf(book1[i].lots@),
        forall|j: int| 0 <= j < book0.len() && j != i ==> book1[j] == book0[j],
    ensures
        book_wf(book1),
        spec_lots_for(book1, symbol) == book1[i].lots@,
        forall|s2: Symbol|
            s2 != symbol ==> spec_lots_for(book1, s2) == spec_lots_for(book0, s2),
        forall|s2: Symbol| has_position(book1, s2) == has_position(book0, s2),
{
    assert forall|s2: Symbol| has_position(book1, s2) == has_position(book0, s2) by {
        if has_position(book0, s2) {
            let k = choose|k: int| 0 <= k < book0.len() && (#[trigger] book0[k]).symbol == s2;
            assert(book1[k].symbol == s2);
        }
        if has_position(book1, s2) {
            let k = choose|k: int| 0 <= k < book1.len() && (#[trigger] book1[k]).symbol == s2;
            assert(book0[k].symbol == s2);
        }
    }
    assert(forall|j: int|
        0 <= j < book1.len() ==> (#[trigger] book1[j]).symbol == book0[j].symbol);
    assert(book_wf(book1));
    assert(forall|j: int| 0 <= j < i ==> (#[trigger] book1[j]).symbol != symbol);
    lemma_lots_for_skip(book1, symbol, i);
    assert(book1.skip(i)[0] == book1[i]);
    assert(forall|s2: Symbol| s2 != symbol ==> spec_lots_for(book1, s2) == spec_lots_for(book0, s2))
        by {
        assert forall|s2: Symbol| s2 != symbol implies spec_lots_for(book1, s2) == spec_lots_for(
            book0,
            s2,
        ) by {
            lemma_lots_for_agree(book0, book1, s2, i);
        }
    }
}

/// Appending a position for a fresh symbol gives that symbol its queue and
/// leaves every other symbol's lookup unchanged.
proof fn lemma_book_push(book0: Seq<Position>, book1: Seq<Position>, symbol: Symbol)
    requires
        book_wf(book0),
        !has_position(book0, symbol),
        book1.len() == book0.len() + 1,
        book1[book0.len() as int].symbol == symbol,
        lots_wf(book1[book0.len() as int].lots@),
        forall|j: int| 0 <= j < book0.len() ==> book1[j] == book0[j],
    ensures
        book_wf(book1),
        spec_lots_for(book1, symbol) == book1[book0.len() as int].lots@,
        forall|s2: Symbol|
            s2 != symbol ==> spec_lots_for(book1, s2) == spec_lots_for(book0, s2),
{
    assert(forall|j: int| 0 <= j < book0.len() ==> (#[trigger] book0[j]).symbol != symbol);
    assert(book_wf(book1));
    assert(forall|j: int| 0 <= j < book0.len() ==> (#[trigger] book1[j]).symbol != symbol);
    lemma_lots_for_skip(book1, symbol, book0.len() as int);
    assert(book1.skip(book0.len() as int)[0] == book1[book0.len() as int]);
    assert forall|s2: Symbol| s2 != symbol implies spec_lots_for(book1, s2) == spec_lots_for(
        book0,
        s2,
    ) by {
        lemma_lots_for_agree_push(book0, book1, s2);
    }
}

/// Two books that agree everywhere but at one index, whose symbol is not
/// `s2`, give `s2` the same lots.
proof fn lemma_lots_for_agree(book0: Seq<Position>, book1: Seq<Position>, s2: Symbol, i: int)
    requires
        book1.len() == book0.len(),
        0 <= i < book0.len(),
        book0[i].symbol != s2,
        book1[i].symbol != s2,
        forall|j: int| 0 <= j < book0.len() && j != i ==> book1[j] == book0[j],
    ensures
        spec_lots_for(book1, s2) == spec_lots_for(book0, s2),
    decreases book0.len(),
{
    if book0.len() == 0 {
    } else if i == 0 {
        assert(book0.drop_first() =~= book1.drop_first()) by {
            assert(forall|j: int|
                0 <= j < book0.drop_first().len() ==> #[trigger] book0.drop_first()[j] == book0[j
                    + 1] && book1.drop_first()[j] == book1[j + 1]);
        }
    } else {
        if book0[0].symbol == s2 {
        } else {
            assert(forall|j: int|
                0 <= j < book0.drop_first().len() ==> #[trigger] book0.drop_first()[j] == book0[j
                    + 1] && book1.drop_first()[j] == book1[j + 1]);
            lemma_lots_for_agree(book0.drop_first(), book1.drop_first(), s2, i - 1);
        }
    }
}

/// Appending a position whose symbol is not `s2` does not change what `s2`
/// maps to.
pub(crate) proof fn lemma_lots_for_agree_push(book0: Seq<Position>, book1: Seq<Position>, s2: Symbol)
    requires
        book1.len() == book0.len() + 1,
        book1[book0.len() as int].symbol != s2,
        forall|j: int| 0 <= j < book0.len() ==> book1[j] == book0[j],
    ensures
        spec_lots_for(book1, s2) == spec_lots_for(book0, s2),
    decreases book0.len(),
{
    if book0.len() == 0 {
        assert(book1.len() == 1);
        assert(book1.drop_first() =~= Seq::<Position>::empty());
        assert(spec_lots_for(book1.drop_first(), s2) == Seq::<Lot>::empty());
        assert(spec_lots_for(book1, s2) == Seq::<Lot>::empty());
    } else {
        if book0[0].symbol == s2 {
            assert(book1[0] == book0[0]);
        } else {
            assert(forall|j: int|
                0 <= j < book0.drop_first().len() ==> #[trigger] book0.drop_first()[j] == book0[j
                    + 1]);
            assert(forall|j: int|
                0 <= j < book1.drop_first().len() ==> #[trigger] book1.drop_first()[j] == book1[j
                    + 1]);
            lemma_lots_for_agree_push(book0.drop_first(), book1.drop_first(), s2);
        }
    }
}

} // verus!
