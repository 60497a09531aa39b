use vstd::prelude::*;
use crate::converter::{spec_convert, CurrencyConverter};
use crate::currency::Cash;
use crate::decimal::{fits, Decimal};
use crate::error::Error;
use crate::ids::{Currency, Date};

verus! {

/// Whether a balance for the currency is present.
pub open spec fn contains_currency(s: Seq<Cash>, c: Currency) -> bool {
    exists|i: int| 0 <= i < s.len() && #[trigger] s[i].currency == c
}

/// A well-formed balance list: every amount representable, at most one entry
/// per currency.
pub open spec fn wf_balances(s: Seq<Cash>) -> bool {
    &&& forall|i: int| 0 <= i < s.len() ==> #[trigger] s[i].valid()
    &&& forall|i: int, j: int|
        0 <= i < j < s.len() ==> #[trigger] s[i].currency != #[trigger] s[j].currency
}

/// What depositing into a balance list yields: the matching entry increased,
/// or a new entry appended in first-deposit order, or an overflow failure
/// leaving everything unchanged.
pub open spec fn deposit_result(s: Seq<Cash>, cash: Cash) -> Result<Seq<Cash>, Error>
    decreases s.len(),
{
    if s.len() == 0 {
        Ok(seq![cash])
    } else if s[0].currency == cash.currency {
        if fits(s[0].amount.units + cash.amount.units) {
            Ok(
                seq![
                    (Cash {
                        currency: cash.currency,
                        amount: Decimal { units: (s[0].amount.units + cash.amount.units) as i128 },
                    }),
                ] + s.drop_first(),
            )
        } else {
            Err(Error::AmountOverflow)
        }
    } else {
        match deposit_result(s.drop_first(), cash) {
            Ok(t) => Ok(seq![s[0]] + t),
            Err(e) => Err(e),
        }
    }
}

/// Splitting a deposit at a prefix with no matching currency: the prefix is
/// kept and the deposit lands in the remainder.
proof fn lemma_deposit_skip(s: Seq<Cash>, cash: Cash, i: int)
    requires
        0 <= i <= s.len(),
        forall|j: int| 0 <= j < i ==> #[trigger] s[j].currency != cash.currency,
    ensures
        deposit_result(s, cash) == (match deposit_result(s.skip(i), cash) {
            Ok(t) => Ok::<Seq<Cash>, Error>(s.take(i) + t),
            Err(e) => Err::<Seq<Cash>, Error>(e),
        }),
    decreases i,
{
    if i == 0 {
        assert(s.skip(0) =~= s);
        match deposit_result(s, cash) {
            Ok(t) => {
                assert(s.take(0) + t =~= t);
            },
            Err(_) => {},
        }
    } else {
        assert(s.len() > 0 && s[0].currency != cash.currency);
        assert(s.drop_first().skip(i - 1) =~= s.skip(i));
        lemma_deposit_skip(s.drop_first(), cash, i - 1);
        match deposit_result(s.skip(i), cash) {
            Ok(t) => {
                assert(seq![s[0]] + (s.drop_first().take(i - 1) + t) =~= s.take(i) + t);
            },
            Err(_) => {},
        }
    }
}

/// The multi-currency flow accumulator: one running signed balance per
/// currency, in first-deposit order. Balances may go negative; it is a flow
/// record, not a constrained account.
#[derive(Debug)]
pub struct MultiCurrencyCashAccount {
    pub balances: Vec<Cash>,
}

impl MultiCurrencyCashAccount {
    pub open spec fn wf(self) -> bool {
        wf_balances(self.balances@)
    }

    pub fn new() -> (r: MultiCurrencyCashAccount)
        ensures
            r.balances@ == Seq::<Cash>::empty(),
            r.wf(),
    {
        MultiCurrencyCashAccount { balances: Vec::new() }
    }

    /// Adds the amount to its currency's balance, creating the entry if the
    /// currency is new to the account.
    pub fn deposit(&mut self, cash: Cash) -> (r: Result<(), Error>)
        requires
            old(self).wf(),
            cash.valid(),
        ensures
            deposit_result(old(self).balances@, cash) matches Ok(t) ==> r == Ok::<(), Error>(())
                && final(self).balances@ == t && final(self).wf(),
            deposit_result(old(self).balances@, cash) matches Err(e) ==> r == Err::<(), Error>(e)
                && final(self).balances@ == old(self).balances@,
    {
        let ghost s = self.balances@;
        let mut i: usize = 0;
        while i < self.balances.len()
            invariant
                0 <= i <= s.len(),
                self.balances@ == s,
                s == old(self).balances@,
                wf_balances(s),
                cash.valid(),
                forall|j: int| 0 <= j < i ==> #[trigger] s[j].currency != cash.currency,
            decreases s.len() - i,
        {
            let entry = self.balances[i];
            if entry.currency == cash.currency {
                proof {
                    lemma_deposit_skip(s, cash, i as int);
                    assert(s.skip(i as int)[0] == s[i as int]);
                    assert(s[i as int].valid());
                }
                match entry.amount.add(cash.amount) {
                    Some(d) => {
                        let updated = Cash { currency: cash.currency, amount: d };
                        let old_entry = self.balances.remove(i);
                        self.balances.insert(i, updated);
                        proof {
                            assert(s.skip(i as int).drop_first() =~= s.skip(i + 1));
                            assert(self.balances@ =~= s.take(i as int) + (seq![updated]
                                + s.skip(i + 1)));
                            assert(self.balances@ =~= s.update(i as int, updated));
                            assert(forall|j: int|
                                0 <= j < s.len() ==> #[trigger] self.balances@[j].currency
                                    == s[j].currency);
                            assert(wf_balances(self.balances@));
                        }
                        return Ok(());
                    },
                    None => {
                        return Err(Error::AmountOverflow);
                    },
                }
            }
            i = i + 1;
        }
        proof {
            lemma_deposit_skip(s, cash, s.len() as int);
            assert(s.skip(s.len() as int) =~= Seq::<Cash>::empty());
            assert(s.take(s.len() as int) + seq![cash] =~= s.push(cash));
            assert(wf_balances(s.push(cash)));
        }
        self.balances.push(cash);
        Ok(())
    }

    /// Subtracts the amount from its currency's balance, with the same
    /// entry-creation rule as `deposit`.
    pub fn withdraw(&mut self, cash: Cash) -> (r: Result<(), Error>)
        requires
            old(self).wf(),
            cash.valid(),
        ensures
            deposit_result(old(self).balances@, cash.spec_neg()) matches Ok(t) ==> r == Ok::<
                (),
                Error,
            >(()) && final(self).balances@ == t && final(self).wf(),
            deposit_result(old(self).balances@, cash.spec_neg()) matches Err(e) ==> r == Err::<
                (),
                Error,
            >(e) && final(self).balances@ == old(self).balances@,
    {
        self.deposit(cash.neg())
    }

    /// Converts the amount into `to` at the rate recorded for `date`, then
    /// deposits the converted amount.
    pub fn add_converted(
        &mut self,
        cash: Cash,
        date: Date,
        to: Currency,
        converter: &CurrencyConverter,
    ) -> (r: Result<(), Error>)
        requires
            old(self).wf(),
            cash.valid(),
        ensures
            spec_convert(converter.rates@, cash, date, to) matches Err(e) ==> r == Err::<
                (),
                Error,
            >(e) && final(self).balances@ == old(self).balances@,
            spec_convert(converter.rates@, cash, date, to) matches Ok(c) ==> {
                &&& deposit_result(old(self).balances@, c) matches Ok(t) ==> r == Ok::<(), Error>(
                    (),
                ) && final(self).balances@ == t && final(self).wf()
                &&& deposit_result(old(self).balances@, c) matches Err(e) ==> r == Err::<
                    (),
                    Error,
                >(e) && final(self).balances@ == old(self).balances@
            },
    {
        let converted = converter.convert(cash, date, to)?;
        self.deposit(converted)
    }
}

} // verus!
