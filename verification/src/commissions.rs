use vstd::prelude::*;
use crate::currency::Cash;
use crate::decimal::{fits, half_up_div, rounded_display, Decimal, FRAC_UNIT};
use crate::error::Error;
use crate::ledger::{deposit_result, MultiCurrencyCashAccount};

verus! {

/// A broker's fee schedule: a fraction of the traded notional, rounded to
/// the display scale, but never below a flat minimum. The fee currency may
/// differ from the trade's.
#[derive(Clone, Copy, Debug, PartialEq, Eq, Structural)]
pub struct CommissionSpec {
    pub currency: crate::ids::Currency,
    pub fraction: Decimal,
    pub minimum: Decimal,
}

impl CommissionSpec {
    pub open spec fn valid(self) -> bool {
        &&& 0 <= self.fraction.units <= FRAC_UNIT
        &&& self.minimum.valid()
        &&& self.minimum.units >= 0
    }
}

/// What a trade's commission comes to under a schedule.
pub open spec fn spec_commission(cs: CommissionSpec, quantity: u32, price: Cash) -> Result<
    Cash,
    Error,
> {
    if !fits(price.amount.units * quantity) {
        Err(Error::AmountOverflow)
    } else {
        let notional = price.amount.units * quantity;
        let fee = rounded_display(half_up_div(notional * cs.fraction.units, FRAC_UNIT as int));
        let charged = if fee < cs.minimum.units {
            cs.minimum.units as int
        } else {
            fee
        };
        Ok((Cash { currency: cs.currency, amount: Decimal { units: charged as i128 } }))
    }
}

/// Accrues the fees of a run of trades into one multi-currency total.
pub struct CommissionCalc {
    pub schedule: CommissionSpec,
    pub total: MultiCurrencyCashAccount,
}

impl CommissionCalc {
    pub open spec fn wf(self) -> bool {
        self.schedule.valid() && self.total.wf()
    }

    pub fn new(schedule: CommissionSpec) -> (r: CommissionCalc)
        ensures
            r.schedule == schedule,
            r.total.balances@ == Seq::<Cash>::empty(),
            schedule.valid() ==> r.wf(),
    {
        CommissionCalc { schedule, total: MultiCurrencyCashAccount::new() }
    }

    /// The commission one trade is charged, also accrued into the running
    /// total.
    pub fn add_trade(&mut self, quantity: u32, price: Cash) -> (r: Result<Cash, Error>)
        requires
            old(self).wf(),
            price.valid(),
        ensures
            final(self).schedule == old(self).schedule,
            final(self).wf(),
            match spec_commission(old(self).schedule, quantity, price) {
                Err(e) => r == Err::<Cash, Error>(e) && final(self).total.balances@ == old(
                    self,
                ).total.balances@,
                Ok(c) => match deposit_result(old(self).total.balances@, c) {
                    Ok(t) => r == Ok::<Cash, Error>(c) && final(self).total.balances@ == t,
                    Err(e) => r == Err::<Cash, Error>(e) && final(self).total.balances@ == old(
                        self,
                    ).total.balances@,
                },
            },
            r matches Ok(c) ==> c.valid(),
    {
        let commission = commission_for(self.schedule, quantity, price)?;
        self.total.deposit(commission)?;
        Ok(commission)
    }

    /// Hands out the accrued total, ending the accrual.
    pub fn calculate(self) -> (r: MultiCurrencyCashAccount)
        ensures
            r == self.total,
    {
        self.total
    }
}

/// One trade's commission under a schedule.
fn commission_for(cs: CommissionSpec, quantity: u32, price: Cash) -> (r: Result<Cash, Error>)
    requires
        cs.valid(),
        price.valid(),
    ensures
        r == spec_commission(cs, quantity, price),
        r matches Ok(c) ==> c.valid() && c.currency == cs.currency,
{
    let notional = match price.amount.scale(quantity) {
        Some(d) => d,
        None => {
            return Err(Error::AmountOverflow);
        },
    };
    proof {
        crate::decimal::lemma_rate_mul_fits(notional.units as int, cs.fraction.units as int);
    }
    let fee = match notional.mul(cs.fraction) {
        Some(d) => d.round_display(),
        None => {
            proof {
                assert(false);
            }
            Decimal { units: 0 }
        },
    };
    let charged = if fee.units < cs.minimum.units {
        cs.minimum
    } else {
        fee
    };
    Ok(Cash { currency: cs.currency, amount: charged })
}

} // verus!
