use vstd::prelude::*;
use crate::decimal::{half_up_div, rounded_display, Decimal, FRAC_UNIT};
use crate::ids::Currency;

verus! {

/// What a flat-rate jurisdiction charges on a local profit: the rate-scaled
/// amount, rounded to the money's display scale. Negative income gives a
/// negative figure; clamping a loss to zero tax is the settlement engine's
/// job, not the rule's.
pub open spec fn spec_tax(rate: int, income: int) -> int {
    rounded_display(half_up_div(income * rate, FRAC_UNIT as int))
}

/// A tax jurisdiction: its residency currency and its flat tax rate, given
/// as a fraction of one.
#[derive(Clone, Copy, Debug, PartialEq, Eq, Structural)]
pub struct Country {
    pub currency: Currency,
    pub tax_rate: Decimal,
}

impl Country {
    /// The rate is a fraction between zero and one.
    pub open spec fn valid(self) -> bool {
        0 <= self.tax_rate.units <= FRAC_UNIT
    }

    pub fn new(currency: Currency, tax_rate: Decimal) -> (r: Country)
        ensures
            r == (Country { currency, tax_rate }),
    {
        Country { currency, tax_rate }
    }

    /// The jurisdiction's rule: tax due on a local profit. Pure and total
    /// over every representable income, negative income included.
    pub fn tax_to_pay(&self, income: Decimal) -> (r: Decimal)
        requires
            self.valid(),
            income.valid(),
        ensures
            r.units == spec_tax(self.tax_rate.units as int, income.units as int),
            r.valid(),
    {
        proof {
            crate::decimal::lemma_rate_mul_fits(income.units as int, self.tax_rate.units as int);
        }
        match income.mul(self.tax_rate) {
            Some(d) => d.round_display(),
            None => {
                proof {
                    assert(false);
                }
                Decimal { units: 0 }
            },
        }
    }
}

} // verus!
