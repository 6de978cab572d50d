//! Conversion of an amount in euros into another currency.

use crate::decimal::{lemma_fixed2_of_same, lemma_times_of_same, Decimal, Scaled};
use crate::pricing::money;
use serde_json::Error as DecodeError;
use url::Url;
use vstd::prelude::*;
use vstd::string::StringExecFns;

verus! {

/// The type `url::Url`, an address that has been parsed. Nothing is claimed
/// of what it holds.
#[verifier::external_type_specification]
#[verifier::external_body]
pub struct ExUrl(Url);

/// The type `serde_json::Error`, the reason why a text could not be decoded.
/// Nothing is claimed of what it holds.
#[verifier::external_type_specification]
#[verifier::external_body]
pub struct ExDecodeError(DecodeError);

/// How many krupnics a euro is worth.
pub const KRUPNIC_PER_EURO: i64 = 2;

/// How many zorglubs a euro is worth.
pub const ZORGLUB_PER_EURO: i64 = 3;

/// The currencies that euros can be converted into.
pub enum Currency {
    Krupnic,
    Zorglub,
    Usd,
}

/// Why a conversion into dollars gave no amount.
#[derive(Debug)]
pub enum Error {
    /// The request for the rate did not get through.
    RequestFailed,
    /// The answer holds no number at `rates.USD`.
    ValueNotFound,
    /// The answer could not be decoded.
    JsonParsingError(DecodeError),
}

impl PartialEq for Error {
    fn eq(&self, other: &Self) -> (same: bool) {
        match (self, other) {
            (Error::RequestFailed, Error::RequestFailed) => true,
            (Error::ValueNotFound, Error::ValueNotFound) => true,
            (Error::JsonParsingError(_), Error::JsonParsingError(_)) => true,
            _ => false,
        }
    }
}

impl vstd::std_specs::cmp::PartialEqSpecImpl for Error {
    open spec fn obeys_eq_spec() -> bool {
        true
    }

    /// Two errors are equal when they are of the same kind, whatever the
    /// reason that a decoding error carries.
    open spec fn eq_spec(&self, other: &Self) -> bool {
        match (self, other) {
            (Error::RequestFailed, Error::RequestFailed) => true,
            (Error::ValueNotFound, Error::ValueNotFound) => true,
            (Error::JsonParsingError(_), Error::JsonParsingError(_)) => true,
            _ => false,
        }
    }
}

/// A source of the rate of the dollar: how many dollars a euro is worth.
pub trait HttpClient {
    /// What this source may answer when it is asked: anything, unless the
    /// source says otherwise.
    open spec fn may_answer(&self, fetched: Result<Decimal, Error>) -> bool {
        true
    }

    /// Asks for the rate.
    fn get_usd(&self) -> (fetched: Result<Decimal, Error>)
        ensures
            self.may_answer(fetched),
    ;
}

/// A source that always gives the rate 1.2 and asks nobody.
pub struct FakeClient(pub Url);

impl HttpClient for FakeClient {
    open spec fn may_answer(&self, fetched: Result<Decimal, Error>) -> bool {
        fetched matches Ok(rate) && rate@ == (Scaled { unscaled: 12, scale: 1 })
    }

    fn get_usd(&self) -> (fetched: Result<Decimal, Error>) {
        Ok(Decimal::new(12, 1))
    }
}

/// The rate of a currency that has a fixed one.
pub open spec fn fixed_rate(currency: Currency) -> Option<Scaled> {
    match currency {
        Currency::Krupnic => Some(Scaled::whole(KRUPNIC_PER_EURO as int)),
        Currency::Zorglub => Some(Scaled::whole(ZORGLUB_PER_EURO as int)),
        Currency::Usd => None,
    }
}

/// What follows an amount in a currency.
pub open spec fn unit(currency: Currency) -> Seq<char> {
    match currency {
        Currency::Krupnic => "Krupnic"@,
        Currency::Zorglub => "Zorglub"@,
        Currency::Usd => "$"@,
    }
}

/// The text for `euros` at `rate` in `currency`.
pub open spec fn converted(euros: Scaled, rate: Scaled, currency: Currency) -> Seq<char> {
    money(euros.times(rate), unit(currency))
}

/// The text of a conversion depends on the amount and the rate as numbers,
/// not on how they are written.
pub proof fn lemma_converted_of_same(
    euros: Scaled,
    euros2: Scaled,
    rate: Scaled,
    rate2: Scaled,
    currency: Currency,
)
    requires
        euros.same(euros2),
        rate.same(rate2),
    ensures
        converted(euros, rate, currency) == converted(euros2, rate2, currency),
{
    lemma_times_of_same(euros, euros2, rate, rate2);
    lemma_fixed2_of_same(euros.times(rate), euros2.times(rate2));
}

/// `outcome` is what the conversion of `euros` into dollars gives when the
/// source of the rate answered `fetched`: the text at that rate, or the
/// source's error as it came.
pub open spec fn usd_outcome(
    euros: Scaled,
    fetched: Result<Decimal, Error>,
    outcome: Result<String, Error>,
) -> bool {
    match fetched {
        Ok(rate) => outcome matches Ok(text) && text@ == converted(euros, rate@, Currency::Usd),
        Err(error) => outcome == Err::<String, Error>(error),
    }
}

/// An amount written with two decimal places, a space and the unit.
fn money_text(amount: &Decimal, unit: &str) -> (text: String)
    ensures
        text@ == money(amount@, unit@),
{
    let mut text = amount.to_fixed2();
    text.append(" ");
    text.append(unit);
    proof {
        reveal_strlit(" ");
        assert(" "@ =~= seq![' ']);
    }
    text
}

/// `euros` in dollars, given what the source of the rate answered.
pub fn convert_usd(euros: &Decimal, fetched: Result<Decimal, Error>) -> (outcome: Result<
    String,
    Error,
>)
    ensures
        usd_outcome(euros@, fetched, outcome),
{
    match fetched {
        Ok(rate) => Ok(money_text(&euros.times(&rate), "$")),
        Err(error) => Err(error),
    }
}

/// `euros` in `currency`, written with two decimal places and the unit.
/// Krupnics and zorglubs have fixed rates and the source is not asked. For
/// dollars the source is asked once, and its error is handed on as it came.
pub fn convert_currency(euros: Decimal, currency: Currency, httpclient: impl HttpClient) -> (outcome:
    Result<String, Error>)
    ensures
        match fixed_rate(currency) {
            Some(rate) => outcome matches Ok(text) && text@ == converted(euros@, rate, currency),
            None => exists|fetched: Result<Decimal, Error>|
                httpclient.may_answer(fetched) && usd_outcome(euros@, fetched, outcome),
        },
{
    match currency {
        Currency::Krupnic => Ok(
            money_text(&euros.times(&Decimal::new(KRUPNIC_PER_EURO, 0)), "Krupnic"),
        ),
        Currency::Zorglub => Ok(
            money_text(&euros.times(&Decimal::new(ZORGLUB_PER_EURO, 0)), "Zorglub"),
        ),
        Currency::Usd => {
            let fetched = httpclient.get_usd();
            let ghost answer = fetched;
            let outcome = convert_usd(&euros, fetched);
            assert(httpclient.may_answer(answer) && usd_outcome(euros@, answer, outcome));
            outcome
        },
    }
}

} // verus!
