//! The price of an order: quantity times unit price, less the discount of its
//! tier, plus tax.

use crate::decimal::{
    lemma_below_of_same, lemma_fixed2_of_same, lemma_growth_of_same, lemma_same_is_equivalence,
    lemma_times_of_same, Decimal, Scaled,
};
use crate::digits::{lemma_pow10_positive, pow10};
use crate::percentage::Percentage;
use vstd::prelude::*;
use vstd::string::StringExecFns;

verus! {

/// A subtotal above this many euros has the small discount.
pub const SMALL_DISCOUNT_ABOVE: i64 = 1000;

/// A subtotal above this many euros has the large discount.
pub const LARGE_DISCOUNT_ABOVE: i64 = 5000;

/// What is left of a hundred after the small discount.
pub const SMALL_DISCOUNT_KEEPS: i64 = 97;

/// What is left of a hundred after the large discount.
pub const LARGE_DISCOUNT_KEEPS: i64 = 95;

/// `count` hundredths.
pub open spec fn per_hundred(count: int) -> Scaled {
    Scaled { unscaled: count, scale: 2 }
}

/// A subtotal less the discount of its tier.
pub open spec fn discounted(subtotal: Scaled) -> Scaled {
    if Scaled::whole(LARGE_DISCOUNT_ABOVE as int).below(subtotal) {
        subtotal.times(per_hundred(LARGE_DISCOUNT_KEEPS as int))
    } else if Scaled::whole(SMALL_DISCOUNT_ABOVE as int).below(subtotal) {
        subtotal.times(per_hundred(SMALL_DISCOUNT_KEEPS as int))
    } else {
        subtotal
    }
}

/// The price of `quantity` items at `item_price` each, less the discount,
/// plus tax at `tax_rate` percent if there is one.
pub open spec fn price(quantity: u32, item_price: Scaled, tax_rate: Option<Scaled>) -> Scaled {
    let net = discounted(Scaled::whole(quantity as int).times(item_price));
    match tax_rate {
        Some(rate) => net.times(rate.growth()),
        None => net,
    }
}

/// An amount written with two decimal places, a space and its unit.
pub open spec fn money(amount: Scaled, unit: Seq<char>) -> Seq<char> {
    amount.fixed2() + seq![' '] + unit
}

/// The subtotal `price` less the discount of its tier: 5% above 5000, 3%
/// above 1000 and up to 5000, none up to 1000.
pub fn apply_discount(price: Decimal) -> (out: Decimal)
    ensures
        out@ == discounted(price@),
        Scaled::whole(5000).below(price@) ==> out@ == price@.times(per_hundred(95)),
        Scaled::whole(1000).below(price@) && !Scaled::whole(5000).below(price@) ==> out@
            == price@.times(per_hundred(97)),
        !Scaled::whole(1000).below(price@) ==> out@ == price@,
{
    proof {
        lemma_tiers_nest(price@);
    }
    if Decimal::new(LARGE_DISCOUNT_ABOVE, 0).below(&price) {
        price.times(&Decimal::new(LARGE_DISCOUNT_KEEPS, 2))
    } else if Decimal::new(SMALL_DISCOUNT_ABOVE, 0).below(&price) {
        price.times(&Decimal::new(SMALL_DISCOUNT_KEEPS, 2))
    } else {
        price
    }
}

/// A subtotal above 5000 is above 1000.
pub proof fn lemma_tiers_nest(subtotal: Scaled)
    ensures
        Scaled::whole(5000).below(subtotal) ==> Scaled::whole(1000).below(subtotal),
{
    lemma_pow10_positive(subtotal.scale);
    let p = pow10(subtotal.scale) as int;
    assert(1000 * p <= 5000 * p) by (nonlinear_arith)
        requires
            p > 0,
    ;
}

/// The discount depends on the subtotal alone, not on how it is written.
pub proof fn lemma_discounted_of_same(a: Scaled, b: Scaled)
    requires
        a.same(b),
    ensures
        discounted(a).same(discounted(b)),
{
    let large = Scaled::whole(LARGE_DISCOUNT_ABOVE as int);
    let small = Scaled::whole(SMALL_DISCOUNT_ABOVE as int);
    lemma_same_is_equivalence(large, large, large);
    lemma_same_is_equivalence(small, small, small);
    lemma_below_of_same(large, large, a, b);
    lemma_below_of_same(small, small, a, b);
    let keeps_large = per_hundred(LARGE_DISCOUNT_KEEPS as int);
    let keeps_small = per_hundred(SMALL_DISCOUNT_KEEPS as int);
    lemma_same_is_equivalence(keeps_large, keeps_large, keeps_large);
    lemma_same_is_equivalence(keeps_small, keeps_small, keeps_small);
    lemma_times_of_same(a, b, keeps_large, keeps_large);
    lemma_times_of_same(a, b, keeps_small, keeps_small);
}

/// The price and its text depend on the item price and the tax rate as
/// numbers, not on how they are written.
pub proof fn lemma_price_of_same(
    quantity: u32,
    a: Scaled,
    b: Scaled,
    rate_a: Scaled,
    rate_b: Scaled,
)
    requires
        a.same(b),
        rate_a.same(rate_b),
    ensures
        price(quantity, a, None).same(price(quantity, b, None)),
        price(quantity, a, Some(rate_a)).same(price(quantity, b, Some(rate_b))),
        money(price(quantity, a, None), seq!['€']) == money(price(quantity, b, None), seq!['€']),
        money(price(quantity, a, Some(rate_a)), seq!['€']) == money(
            price(quantity, b, Some(rate_b)),
            seq!['€'],
        ),
{
    let count = Scaled::whole(quantity as int);
    lemma_same_is_equivalence(count, count, count);
    lemma_times_of_same(count, count, a, b);
    lemma_discounted_of_same(count.times(a), count.times(b));
    lemma_growth_of_same(rate_a, rate_b);
    lemma_times_of_same(
        discounted(count.times(a)),
        discounted(count.times(b)),
        rate_a.growth(),
        rate_b.growth(),
    );
    lemma_fixed2_of_same(price(quantity, a, None), price(quantity, b, None));
    lemma_fixed2_of_same(price(quantity, a, Some(rate_a)), price(quantity, b, Some(rate_b)));
}

/// The price of `quantity` items at `item_price` each: the subtotal less its
/// discount, then plus tax at `tax_rate` percent if there is one.
pub fn calculate_price(quantity: u32, item_price: Decimal, tax_rate: Option<Percentage>) -> (out:
    Decimal)
    ensures
        out@ == price(
            quantity,
            item_price@,
            match tax_rate {
                Some(rate) => Some(rate@),
                None => None,
            },
        ),
        tax_rate matches Some(rate) ==> out@ == discounted(
            Scaled::whole(quantity as int).times(item_price@),
        ).times(rate@.growth()),
        tax_rate is None ==> out@ == discounted(Scaled::whole(quantity as int).times(item_price@)),
{
    let subtotal = Decimal::new(quantity as i64, 0).times(&item_price);
    let net = apply_discount(subtotal);
    match tax_rate {
        Some(rate) => net.times(&rate.factor()),
        None => net,
    }
}

/// The price of an order in euros, written with two decimal places.
pub fn calculate_price_formated(
    quantity: u32,
    item_price: Decimal,
    tax_rate: Option<Percentage>,
) -> (text: String)
    ensures
        text@ == money(
            price(
                quantity,
                item_price@,
                match tax_rate {
                    Some(rate) => Some(rate@),
                    None => None,
                },
            ),
            seq!['€'],
        ),
{
    let mut text = calculate_price(quantity, item_price, tax_rate).to_fixed2();
    text.append(" €");
    proof {
        reveal_strlit(" €");
        assert(" €"@ =~= seq![' '] + seq!['€']);
    }
    text
}

} // verus!
