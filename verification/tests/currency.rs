use dojo2::{
    convert_currency, convert_usd, rate_from_number, usd_rate_from_body,
    usd_rate_from_response, Currency, Decimal, Error, FakeClient, HttpClient,
};
use url::Url;

/// A source whose request never gets through.
struct Unreachable(Url);

impl HttpClient for Unreachable {
    fn get_usd(&self) -> Result<Decimal, Error> {
        Err(Error::RequestFailed)
    }
}

/// A source that reads the rate from an answer recorded earlier.
struct Recorded(Url, &'static str);

impl HttpClient for Recorded {
    fn get_usd(&self) -> Result<Decimal, Error> {
        usd_rate_from_body(self.1.as_bytes())
    }
}

const ANSWER: &str = r#"{"result":"success","base_code":"EUR","rates":{"EUR":1,"GBP":0.8514,"USD":1.0843}}"#;

#[test]
fn test_convert_currency_krupnic_tc1() {
    assert_eq!(
        convert_currency(
            Decimal::new(20, 0),
            Currency::Krupnic,
            FakeClient(Url::parse("http://localhost").unwrap())
        )
        .unwrap(),
        String::from("40.00 Krupnic")
    );
}

#[test]
fn test_convert_currency_krupnic_tc2() {
    assert_eq!(
        convert_currency(
            Decimal::new(20, 0),
            Currency::Zorglub,
            FakeClient(Url::parse("http://localhost").unwrap())
        )
        .unwrap(),
        String::from("60.00 Zorglub")
    );
}

#[test]
fn test_convert_currency_usd_fake_client() {
    assert_eq!(
        convert_currency(
            Decimal::new(20, 0),
            Currency::Usd,
            FakeClient(Url::parse("http://localhost").unwrap())
        )
        .unwrap(),
        String::from("24.00 $")
    );
}

#[test]
fn test_convert_currency_usd2() {
    let dollars = convert_currency(
        Decimal::new(25, 0),
        Currency::Usd,
        Recorded(
            Url::parse("https://open.er-api.com/v6/latest/EUR").unwrap(),
            ANSWER,
        ),
    )
    .unwrap();
    assert_eq!(dollars.ends_with(" $"), true);
    assert_eq!(dollars.starts_with("2"), true);
    assert_eq!(dollars, "27.11 $");
}

#[test]
fn test_convert_currency_connection_failed() {
    assert_eq!(
        convert_currency(
            Decimal::new(20, 0),
            Currency::Usd,
            Unreachable(Url::parse("https://localhost/currency").unwrap())
        )
        .unwrap_err(),
        Error::RequestFailed
    );
}

#[test]
fn fixed_rates_do_not_ask_the_source() {
    assert_eq!(
        convert_currency(
            Decimal::new(20, 0),
            Currency::Krupnic,
            Unreachable(Url::parse("https://localhost/currency").unwrap())
        )
        .unwrap(),
        "40.00 Krupnic"
    );
    assert_eq!(
        convert_currency(
            Decimal::new(20, 0),
            Currency::Zorglub,
            Recorded(Url::parse("http://localhost").unwrap(), "no answer")
        )
        .unwrap(),
        "60.00 Zorglub"
    );
    assert_eq!(
        convert_currency(
            Decimal::new(-125, 1),
            Currency::Zorglub,
            Unreachable(Url::parse("http://localhost").unwrap())
        )
        .unwrap(),
        "-37.50 Zorglub"
    );
}

#[test]
fn fake_client_gives_one_point_two() {
    let rate = FakeClient(Url::parse("http://localhost").unwrap())
        .get_usd()
        .unwrap();
    assert_eq!(rate, Decimal::new(12, 1));
}

#[test]
fn dollars_follow_the_answer_of_the_source() {
    let euros = Decimal::new(20, 0);
    assert_eq!(
        convert_usd(&euros, Ok(Decimal::new(12, 1))).unwrap(),
        "24.00 $"
    );
    assert_eq!(
        convert_usd(&euros, Ok(Decimal::new(10843, 4))).unwrap(),
        "21.69 $"
    );
    assert_eq!(
        convert_usd(&euros, Err(Error::RequestFailed)).unwrap_err(),
        Error::RequestFailed
    );
    assert_eq!(
        convert_usd(&euros, Err(Error::ValueNotFound)).unwrap_err(),
        Error::ValueNotFound
    );
    let undecoded = usd_rate_from_body(b"<html>").unwrap_err();
    assert!(matches!(
        convert_usd(&euros, Err(undecoded)),
        Err(Error::JsonParsingError(_))
    ));
}

#[test]
fn source_errors_come_through_unchanged() {
    let outcome = convert_currency(
        Decimal::new(20, 0),
        Currency::Usd,
        Recorded(Url::parse("http://localhost").unwrap(), "{\"rates\":{}}"),
    );
    assert_eq!(outcome.unwrap_err(), Error::ValueNotFound);
    let outcome = convert_currency(
        Decimal::new(20, 0),
        Currency::Usd,
        Recorded(Url::parse("http://localhost").unwrap(), "{\"rates\":"),
    );
    assert!(matches!(outcome, Err(Error::JsonParsingError(_))));
}

#[test]
fn rate_is_read_at_rates_usd() {
    assert_eq!(
        usd_rate_from_body(ANSWER.as_bytes()).unwrap(),
        Decimal::new(10843, 4)
    );
    assert_eq!(
        usd_rate_from_body(b"{\"rates\":{\"USD\":1.2}}").unwrap(),
        Decimal::new(12, 1)
    );
    assert_eq!(
        usd_rate_from_body(b" { \"USD\": 7, \"rates\" : { \"USD\" : 2 , \"usd\": 3 } } ").unwrap(),
        Decimal::new(2, 0)
    );
    assert_eq!(
        usd_rate_from_body(b"{\"rates\":{\"USD\":-0.5}}").unwrap(),
        Decimal::new(-5, 1)
    );
    assert_eq!(
        usd_rate_from_body(b"{\"rates\":{\"USD\":1e-7}}").unwrap(),
        Decimal::new(1, 7)
    );
    assert_eq!(
        usd_rate_from_body(b"{\"rates\":{\"USD\":2.5e3}}").unwrap(),
        Decimal::new(2500, 0)
    );
    assert_eq!(
        usd_rate_from_body(b"{\"rates\":{\"USD\":1,\"USD\":4}}").unwrap(),
        Decimal::new(4, 0)
    );
}

#[test]
fn answer_without_a_number_there_gives_value_not_found() {
    for body in [
        "{}",
        "{\"rates\":{}}",
        "{\"rates\":{\"EUR\":1}}",
        "{\"rates\":{\"USD\":\"1.2\"}}",
        "{\"rates\":{\"USD\":null}}",
        "{\"rates\":{\"USD\":[1.2]}}",
        "{\"rates\":{\"USD\":{\"value\":1.2}}}",
        "{\"rates\":[1.2]}",
        "{\"rates\":1.2}",
        "{\"USD\":1.2}",
        "[{\"rates\":{\"USD\":1.2}}]",
        "1.2",
        "null",
    ] {
        assert_eq!(
            usd_rate_from_body(body.as_bytes()).unwrap_err(),
            Error::ValueNotFound,
            "{}",
            body
        );
    }
}

#[test]
fn answer_that_is_no_json_gives_a_parsing_error() {
    for body in [
        "",
        "not json",
        "{\"rates\":{\"USD\":1.2}",
        "{\"rates\":{\"USD\":1.2}} trailing",
        "{\"rates\":{\"USD\":1e999}}",
        "{'rates':{'USD':1.2}}",
    ] {
        assert!(
            matches!(
                usd_rate_from_body(body.as_bytes()),
                Err(Error::JsonParsingError(_))
            ),
            "{}",
            body
        );
    }
    assert!(matches!(
        usd_rate_from_body(b"{\"rates\":{\"USD\":1.2},\"note\":\"\xff\"}"),
        Err(Error::JsonParsingError(_))
    ));
    assert!(matches!(
        usd_rate_from_body(b"\xff\xfe"),
        Err(Error::JsonParsingError(_))
    ));
}

#[test]
fn rate_from_the_text_of_a_number() {
    assert_eq!(
        rate_from_number(Some(String::from("1.2"))).unwrap(),
        Decimal::new(12, 1)
    );
    assert_eq!(
        rate_from_number(Some(String::from("3"))).unwrap(),
        Decimal::new(3, 0)
    );
    assert_eq!(
        rate_from_number(Some(String::from("1e5"))).unwrap_err(),
        Error::ValueNotFound
    );
    assert_eq!(rate_from_number(None).unwrap_err(), Error::ValueNotFound);
}

#[test]
fn errors_are_equal_by_kind() {
    let first = usd_rate_from_body(b"{").unwrap_err();
    let second = usd_rate_from_body(b"]").unwrap_err();
    assert_eq!(first, second);
    assert_ne!(first, Error::RequestFailed);
    assert_ne!(first, Error::ValueNotFound);
    assert_ne!(Error::RequestFailed, Error::ValueNotFound);
    assert_eq!(Error::RequestFailed, Error::RequestFailed);
    assert_eq!(Error::ValueNotFound, Error::ValueNotFound);
}

#[test]
fn request_that_did_not_get_through_gives_request_failed() {
    assert_eq!(
        usd_rate_from_response(None).unwrap_err(),
        Error::RequestFailed
    );
    assert_eq!(
        usd_rate_from_response(Some(ANSWER.as_bytes())).unwrap(),
        Decimal::new(10843, 4)
    );
    assert_eq!(
        usd_rate_from_response(Some(b"{}".as_slice())).unwrap_err(),
        Error::ValueNotFound
    );
    assert!(matches!(
        usd_rate_from_response(Some(b"".as_slice())),
        Err(Error::JsonParsingError(_))
    ));
}
