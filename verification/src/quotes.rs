use vstd::prelude::*;
use crate::currency::Cash;
use crate::error::Error;
use crate::ids::Symbol;

verus! {

/// One known market price for a symbol.
#[derive(Clone, Copy, Debug, PartialEq, Eq, Structural)]
pub struct QuoteRecord {
    pub symbol: Symbol,
    pub price: Cash,
}

/// The price recorded for a symbol: the latest-added entry wins.
pub open spec fn quote_for(quotes: Seq<QuoteRecord>, symbol: Symbol) -> Option<Cash>
    decreases quotes.len(),
{
    if quotes.len() == 0 {
        None
    } else if quotes.last().symbol == symbol {
        Some(quotes.last().price)
    } else {
        quote_for(quotes.drop_last(), symbol)
    }
}

/// A current-price table. The surrounding program fills it from its quote
/// source; the engine only ever reads it.
pub struct Quotes {
    pub prices: Vec<QuoteRecord>,
}

impl Quotes {
    pub open spec fn wf(self) -> bool {
        forall|i: int| 0 <= i < self.prices@.len() ==> (#[trigger] self.prices@[i]).price.valid()
    }

    pub fn new() -> (r: Quotes)
        ensures
            r.prices@ == Seq::<QuoteRecord>::empty(),
            r.wf(),
    {
        Quotes { prices: Vec::new() }
    }

    pub fn add_quote(&mut self, symbol: Symbol, price: Cash)
        requires
            old(self).wf(),
            price.valid(),
        ensures
            final(self).prices@ == old(self).prices@.push((QuoteRecord { symbol, price })),
            final(self).wf(),
    {
        self.prices.push(QuoteRecord { symbol, price });
        proof {
            assert(forall|i: int|
                0 <= i < old(self).prices@.len() ==> #[trigger] self.prices@[i] == old(
                    self,
                ).prices@[i]);
        }
    }

    /// A prefetch hint: tells the price source a batch will ask for this
    /// symbol. The table is already local, so nothing needs doing; the
    /// surrounding program may prefetch on its own side.
    pub fn batch(&self, symbol: Symbol) {
        let _ = symbol;
    }

    /// The symbol's current price, where one is known.
    pub fn get(&self, symbol: Symbol) -> (r: Result<Cash, Error>)
        requires
            self.wf(),
        ensures
            r == (match quote_for(self.prices@, symbol) {
                Some(c) => Ok::<Cash, Error>(c),
                None => Err::<Cash, Error>(Error::QuoteUnavailable { symbol }),
            }),
            r matches Ok(c) ==> c.valid(),
    {
        let ghost s = self.prices@;
        let mut i: usize = self.prices.len();
        proof {
            assert(s.take(s.len() as int) =~= s);
        }
        while i > 0
            invariant
                0 <= i <= s.len(),
                self.prices@ == s,
                self.wf(),
                quote_for(s, symbol) == quote_for(s.take(i as int), symbol),
            decreases i,
        {
            i = i - 1;
            let rec = self.prices[i];
            proof {
                assert(s.take(i + 1).drop_last() =~= s.take(i as int));
                assert(s.take(i + 1).last() == s[i as int]);
            }
            if rec.symbol == symbol {
                return Ok(rec.price);
            }
        }
        proof {
            assert(s.take(0) =~= Seq::<QuoteRecord>::empty());
        }
        Err(Error::QuoteUnavailable { symbol })
    }
}

} // verus!
