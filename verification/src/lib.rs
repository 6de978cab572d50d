//! Prices, discounts and currency conversion on exact decimal numbers.

use vstd::prelude::*;

pub mod currency;
pub mod decimal;
pub mod digits;
pub mod notation;
pub mod percentage;
pub mod pricing;
pub mod rates;

pub use currency::{convert_currency, convert_usd, Currency, Error, FakeClient, HttpClient};
pub use decimal::{Decimal, Scaled};
pub use digits::Relation;
pub use percentage::Percentage;
pub use pricing::{apply_discount, calculate_price, calculate_price_formated};
pub use rates::{rate_from_number, usd_rate_from_body, usd_rate_from_response};

verus! {

/// The sum of two sizes.
pub fn add(left: usize, right: usize) -> (sum: usize)
    requires
        left + right <= usize::MAX,
    ensures
        sum == left + right,
{
    left + right
}

} // verus!
