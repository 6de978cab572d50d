use dojo2::digits::Relation;
use dojo2::Decimal;

fn parsed(text: &str) -> Decimal {
    Decimal::parse(text).unwrap()
}

#[test]
fn same_number_at_different_scales_is_equal() {
    assert_eq!(Decimal::new(121, 2), Decimal::new(1210, 3));
    assert_eq!(Decimal::new(0, 0), Decimal::new(0, 5));
    assert_eq!(Decimal::new(-5, 1), Decimal::new(-50, 2));
    assert_ne!(Decimal::new(121, 2), Decimal::new(121, 3));
    assert_ne!(Decimal::new(5, 0), Decimal::new(-5, 0));
}

#[test]
fn numbers_are_ordered_by_value() {
    assert!(Decimal::new(999, 3).below(&Decimal::new(1, 0)));
    assert!(!Decimal::new(1, 0).below(&Decimal::new(1000, 3)));
    assert!(Decimal::new(-1, 0).below(&Decimal::new(1, 2)));
    assert!(Decimal::new(-2, 0).below(&Decimal::new(-15, 1)));
    assert!(!Decimal::new(0, 0).below(&Decimal::new(0, 2)));
    assert!(matches!(
        Decimal::new(5, 0).relation(&Decimal::new(49, 1)),
        Relation::Above
    ));
    assert!(matches!(
        Decimal::new(5, 0).relation(&Decimal::new(50, 1)),
        Relation::Level
    ));
    assert!(matches!(
        Decimal::new(-5, 0).relation(&Decimal::new(49, 1)),
        Relation::Below
    ));
}

#[test]
fn product_is_exact() {
    assert_eq!(
        Decimal::new(121, 2).times(&Decimal::new(105, 2)),
        Decimal::new(12705, 4)
    );
    assert_eq!(
        Decimal::new(-3, 0).times(&Decimal::new(5, 1)),
        Decimal::new(-15, 1)
    );
    assert_eq!(
        Decimal::new(-3, 0).times(&Decimal::new(-5, 1)),
        Decimal::new(15, 1)
    );
    assert_eq!(
        Decimal::new(i64::MAX, 0)
            .times(&Decimal::new(i64::MAX, 0))
            .to_fixed2(),
        "85070591730234615847396907784232501249.00"
    );
    assert_eq!(
        Decimal::new(i64::MIN, 0).to_fixed2(),
        "-9223372036854775808.00"
    );
}

#[test]
fn two_decimal_places_always() {
    assert_eq!(Decimal::new(5, 0).to_fixed2(), "5.00");
    assert_eq!(Decimal::new(51, 1).to_fixed2(), "5.10");
    assert_eq!(Decimal::new(1, 1).to_fixed2(), "0.10");
    assert_eq!(Decimal::new(7, 2).to_fixed2(), "0.07");
    assert_eq!(Decimal::new(0, 0).to_fixed2(), "0.00");
    assert_eq!(Decimal::new(120000, 2).to_fixed2(), "1200.00");
    assert_eq!(Decimal::new(1000000, 4).to_fixed2(), "100.00");
    assert_eq!(Decimal::new(-4000, 2).to_fixed2(), "-40.00");
}

#[test]
fn rounding_is_half_to_even() {
    assert_eq!(Decimal::new(125, 3).to_fixed2(), "0.12");
    assert_eq!(Decimal::new(135, 3).to_fixed2(), "0.14");
    assert_eq!(Decimal::new(1250001, 7).to_fixed2(), "0.13");
    assert_eq!(Decimal::new(124999, 6).to_fixed2(), "0.12");
    assert_eq!(Decimal::new(995, 3).to_fixed2(), "1.00");
    assert_eq!(Decimal::new(9995, 3).to_fixed2(), "10.00");
    assert_eq!(Decimal::new(99949, 4).to_fixed2(), "9.99");
    assert_eq!(Decimal::new(5, 3).to_fixed2(), "0.00");
    assert_eq!(Decimal::new(15, 3).to_fixed2(), "0.02");
    assert_eq!(Decimal::new(1840575, 3).to_fixed2(), "1840.58");
    assert_eq!(Decimal::new(-125, 3).to_fixed2(), "-0.12");
    assert_eq!(Decimal::new(-1, 3).to_fixed2(), "-0.00");
}

#[test]
fn text_that_spells_a_number_is_read() {
    assert_eq!(parsed("1.21"), Decimal::new(121, 2));
    assert_eq!(parsed("20"), Decimal::new(20, 0));
    assert_eq!(parsed("20.0"), Decimal::new(20, 0));
    assert_eq!(parsed("-3.5"), Decimal::new(-35, 1));
    assert_eq!(parsed("0.000001"), Decimal::new(1, 6));
    assert_eq!(parsed("007"), Decimal::new(7, 0));
    assert_eq!(parsed("-0"), Decimal::new(0, 0));
    assert_eq!(parsed("1.0843").to_fixed2(), "1.08");
    assert_eq!(
        parsed("123456789012345678901234567890.125").to_fixed2(),
        "123456789012345678901234567890.12"
    );
}

#[test]
fn text_that_spells_no_number_is_refused() {
    for text in [
        "", "-", ".", "1.", ".5", "-.5", "1.2.3", "1e5", "+1", " 1", "1 ", "1,5", "--1", "1-",
        "abc", "1.a", "٣",
    ] {
        assert!(Decimal::parse(text).is_none(), "{:?}", text);
    }
}

#[test]
fn zeros_at_the_end_do_not_change_the_text() {
    for (unscaled, scale) in [(5, 0), (50, 1), (500, 2), (5000, 3), (5000000, 6)] {
        assert_eq!(Decimal::new(unscaled, scale).to_fixed2(), "5.00");
    }
    for (unscaled, scale) in [(1235, 3), (12350, 4), (123500000, 8)] {
        assert_eq!(Decimal::new(unscaled, scale).to_fixed2(), "1.24");
    }
    for (unscaled, scale) in [(-1245, 3), (-12450, 4), (-124500000, 8)] {
        assert_eq!(Decimal::new(unscaled, scale).to_fixed2(), "-1.24");
    }
}
