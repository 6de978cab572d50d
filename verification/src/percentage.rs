//! A rate in percent, between 0 and 100.

use crate::decimal::{Decimal, Scaled};
use crate::digits::{pow10, Relation};
use vstd::prelude::*;

verus! {

/// A rate in percent: a number from 0 to 100, both included.
#[derive(Debug)]
pub struct Percentage(Decimal);

impl View for Percentage {
    type V = Scaled;

    closed spec fn view(&self) -> Scaled {
        self.0@
    }
}

impl Percentage {
    #[verifier::type_invariant]
    spec fn in_range(self) -> bool {
        Percentage::admits(self.0@)
    }

    /// The number `value` is at least 0 and at most 100.
    pub open spec fn admits(value: Scaled) -> bool {
        0 <= value.unscaled <= 100 * pow10(value.scale)
    }

    /// The number `value` is at least 0 and at most 100.
    pub fn is_rate(value: &Decimal) -> (yes: bool)
        ensures
            yes == Percentage::admits(value@),
    {
        let zero = Decimal::new(0, 0);
        let hundred = Decimal::new(100, 0);
        proof {
            lemma_admits_is_between(value@);
        }
        let at_least_zero = match value.relation(&zero) {
            Relation::Below => false,
            _ => true,
        };
        let at_most_hundred = match hundred.relation(value) {
            Relation::Below => false,
            _ => true,
        };
        at_least_zero && at_most_hundred
    }

    /// The rate of `value` percent.
    pub fn new(value: Decimal) -> (rate: Percentage)
        requires
            Percentage::admits(value@),
        ensures
            rate@ == value@,
    {
        Percentage(value)
    }

    /// The rate of `value` percent, if `value` is at least 0 and at most 100.
    pub fn try_new(value: Decimal) -> (rate: Option<Percentage>)
        ensures
            match rate {
                Some(r) => Percentage::admits(value@) && r@ == value@,
                None => !Percentage::admits(value@),
            },
    {
        if Percentage::is_rate(&value) {
            Some(Percentage(value))
        } else {
            None
        }
    }

    /// The number of percent.
    pub fn get(&self) -> (value: &Decimal)
        ensures
            value@ == self@,
            Percentage::admits(self@),
    {
        proof {
            use_type_invariant(self);
        }
        &self.0
    }

    /// What an amount is multiplied by to add this rate to it.
    pub fn factor(&self) -> (factor: Decimal)
        ensures
            factor@ == self@.growth(),
    {
        proof {
            use_type_invariant(self);
        }
        self.0.growth()
    }
}

/// A number is admitted as a rate when it is not below 0 and 100 is not below
/// it.
pub proof fn lemma_admits_is_between(value: Scaled)
    ensures
        Percentage::admits(value) <==> !value.below(Scaled::whole(0)) && !Scaled::whole(100).below(
            value,
        ),
{
    let u = value.unscaled;
    let p = pow10(value.scale) as int;
    assert(pow10(0) == 1);
    assert(u * 1 == u);
    assert(0 * p == 0);
}

} // verus!
