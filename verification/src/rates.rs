//! The rate of the dollar out of the answer of a rate service: a JSON text
//! with a number at `rates.USD`.

use crate::currency::Error;
use crate::decimal::{Decimal, Scaled};
use serde_json::Error as DecodeError;
use serde_json::Value;
use vstd::prelude::*;

verus! {

/// The type `serde_json::Value`, a decoded JSON text. Nothing is claimed of
/// what it holds but through `json_numbers`.
#[verifier::external_type_specification]
#[verifier::external_body]
pub struct ExValue(Value);

/// The numbers that a decoded JSON text holds, each under the path of member
/// names that leads to it from the top, and each as the decimal text of the
/// nearest double. A number holds itself under the empty path; an object
/// holds what its members hold, each under the member's name; anything else
/// holds none.
pub uninterp spec fn json_numbers(value: Value) -> Map<Seq<Seq<char>>, Seq<char>>;

/// The numbers of what `serde_json::from_slice` decodes `body` into, `None`
/// where it gives an error.
pub uninterp spec fn json_decoded(body: Seq<u8>) -> Option<Map<Seq<Seq<char>>, Seq<char>>>;

/// The numbers that stand under the member `key`.
pub open spec fn under(numbers: Map<Seq<Seq<char>>, Seq<char>>, key: Seq<char>) -> Map<
    Seq<Seq<char>>,
    Seq<char>,
> {
    Map::new(
        |path: Seq<Seq<char>>| numbers.contains_key(seq![key] + path),
        |path: Seq<Seq<char>>| numbers[seq![key] + path],
    )
}

/// The number under `path`, if there is one.
pub open spec fn number_at(numbers: Map<Seq<Seq<char>>, Seq<char>>, path: Seq<Seq<char>>) -> Option<
    Seq<char>,
> {
    if numbers.contains_key(path) {
        Some(numbers[path])
    } else {
        None
    }
}

/// Calls `serde_json::from_slice` for a `Value`. The contract names the
/// outcome: the same bytes fail every time, or decode every time into a value
/// with the same numbers.
#[verifier::external_body]
fn decode(body: &[u8]) -> (outcome: Result<Value, DecodeError>)
    ensures
        match outcome {
            Ok(value) => json_decoded(body@) == Some(json_numbers(value)),
            Err(_) => json_decoded(body@) is None,
        },
{
    serde_json::from_slice::<Value>(body)
}

/// Indexes a `Value` by a name, as `value[key]` does: it gives the member of
/// that name where `value` is an object that has one, and the null value
/// otherwise. So what comes back holds the numbers that `value` holds under
/// that name.
#[verifier::external_body]
fn member<'a>(value: &'a Value, key: &str) -> (found: &'a Value)
    ensures
        json_numbers(*found) == under(json_numbers(*value), key@),
{
    &value[key]
}

/// Calls `Value::as_f64`, which gives a double where `value` is a number and
/// nothing otherwise, and writes the double out in decimal.
#[verifier::external_body]
fn number_text(value: &Value) -> (text: Option<String>)
    ensures
        match text {
            Some(written) => number_at(json_numbers(*value), Seq::empty()) == Some(written@),
            None => number_at(json_numbers(*value), Seq::empty()) is None,
        },
{
    match value.as_f64() {
        Some(number) => Some(format!("{}", number)),
        None => None,
    }
}

/// `outcome` is the rate read from the text of a number, if there was a
/// number: that number where the text spells one, and the error that no value
/// was found otherwise.
pub open spec fn rate_outcome(number: Option<Seq<char>>, outcome: Result<Decimal, Error>) -> bool {
    match number {
        Some(text) => match Scaled::spelled(text) {
            Some(rate) => outcome matches Ok(found) && found@ == rate,
            None => outcome == Err::<Decimal, Error>(Error::ValueNotFound),
        },
        None => outcome == Err::<Decimal, Error>(Error::ValueNotFound),
    }
}

/// `outcome` is the rate read from the answer `body`: a decoding error where
/// the body is no JSON text, else the rate read from the number at
/// `rates.USD`.
pub open spec fn body_outcome(body: Seq<u8>, outcome: Result<Decimal, Error>) -> bool {
    match json_decoded(body) {
        None => outcome matches Err(Error::JsonParsingError(_)),
        Some(numbers) => rate_outcome(number_at(numbers, seq!["rates"@, "USD"@]), outcome),
    }
}

/// The rate that the text of a number spells, if there was a number.
pub fn rate_from_number(number: Option<String>) -> (outcome: Result<Decimal, Error>)
    ensures
        rate_outcome(
            match number {
                Some(text) => Some(text@),
                None => None,
            },
            outcome,
        ),
{
    match number {
        Some(text) => match Decimal::parse(text.as_str()) {
            Some(rate) => Ok(rate),
            None => Err(Error::ValueNotFound),
        },
        None => Err(Error::ValueNotFound),
    }
}

/// The rate of the dollar in the answer `body` of a rate service. A body that
/// is no JSON text gives a decoding error; one without a number at
/// `rates.USD` gives the error that no value was found.
pub fn usd_rate_from_body(body: &[u8]) -> (outcome: Result<Decimal, Error>)
    ensures
        body_outcome(body@, outcome),
{
    match decode(body) {
        Err(reason) => Err(Error::JsonParsingError(reason)),
        Ok(document) => {
            let rates = member(&document, "rates");
            let usd = member(rates, "USD");
            proof {
                let numbers = json_numbers(document);
                let path = seq!["rates"@, "USD"@];
                assert(seq!["rates"@] + (seq!["USD"@] + Seq::<Seq<char>>::empty()) =~= path);
                assert(number_at(json_numbers(*usd), Seq::empty()) == number_at(numbers, path));
            }
            rate_from_number(number_text(usd))
        },
    }
}

/// The rate of the dollar from what a request to a rate service gave: the
/// body of the answer, or nothing where the request did not get through,
/// which gives the error that the request failed.
pub fn usd_rate_from_response(response: Option<&[u8]>) -> (outcome: Result<Decimal, Error>)
    ensures
        match response {
            Some(body) => body_outcome(body@, outcome),
            None => outcome == Err::<Decimal, Error>(Error::RequestFailed),
        },
{
    match response {
        Some(body) => usd_rate_from_body(body),
        None => Err(Error::RequestFailed),
    }
}

} // verus!
