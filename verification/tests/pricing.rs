use dojo2::{
    apply_discount, calculate_price, calculate_price_formated, Decimal, Percentage,
};

fn percent(unscaled: i64, scale: u8) -> Percentage {
    Percentage::try_new(Decimal::new(unscaled, scale)).unwrap()
}

#[test]
fn it_works() {
    let result = dojo2::add(2, 2);
    assert_eq!(result, 4);
}

#[test]
fn test_calculate_price_with_taxe() {
    assert_eq!(
        calculate_price(2, Decimal::new(10, 0), Some(percent(20, 0))),
        Decimal::new(24, 0)
    );
}

#[test]
fn test_calculate_price_without_taxe() {
    assert_eq!(calculate_price(2, Decimal::new(10, 0), None), Decimal::new(20, 0));
}

#[test]
fn test_calculate_price_tc1() {
    assert_eq!(calculate_price(3, Decimal::new(121, 2), None), Decimal::new(363, 2));
}

#[test]
fn test_calculate_price_tc2() {
    assert_eq!(
        calculate_price(3, Decimal::new(121, 2), Some(percent(50, 1))),
        Decimal::new(38115, 4)
    );
}

#[test]
fn test_calculate_price_tc3() {
    assert_eq!(
        calculate_price(3, Decimal::new(121, 2), Some(percent(20, 0))),
        Decimal::new(4356, 3)
    );
}

#[test]
fn test_calculate_price_formated_tc1() {
    assert_eq!(
        calculate_price_formated(3, Decimal::new(121, 2), None),
        String::from("3.63 €")
    );
}

#[test]
fn test_calculate_price_formated_tc2() {
    assert_eq!(
        calculate_price_formated(3, Decimal::new(121, 2), Some(percent(50, 1))),
        String::from("3.81 €")
    );
}

#[test]
fn test_calculate_price_formated_tc3() {
    assert_eq!(
        calculate_price_formated(3, Decimal::new(121, 2), Some(percent(20, 0))),
        String::from("4.36 €")
    );
}

#[test]
fn test_calculate_price_formated_with_discount_tc1() {
    assert_eq!(
        calculate_price_formated(5, Decimal::new(345, 0), Some(percent(10, 0))),
        String::from("1840.58 €")
    );
}

#[test]
fn test_calculate_price_formated_with_discount_tc2() {
    assert_eq!(
        calculate_price_formated(5, Decimal::new(1299, 0), Some(percent(10, 0))),
        String::from("6787.28 €")
    );
}

#[test]
fn test_percentage_various_type1() {
    assert_eq!(
        *Percentage::new(Decimal::new(20, 0)).get(),
        Decimal::new(200, 1)
    );
}

#[test]
fn test_percentage_various_type2() {
    assert_eq!(
        *Percentage::new(Decimal::new(200, 1)).get(),
        Decimal::new(20, 0)
    );
}

#[test]
fn percentage_accepts_both_ends() {
    assert!(Percentage::is_rate(&Decimal::new(0, 0)));
    assert!(Percentage::is_rate(&Decimal::new(100, 0)));
    assert!(Percentage::is_rate(&Decimal::new(10000, 2)));
    assert_eq!(*percent(0, 0).get(), Decimal::new(0, 3));
    assert_eq!(*percent(100, 0).get(), Decimal::new(100, 0));
    assert_eq!(*percent(125, 1).get(), Decimal::new(125, 1));
}

#[test]
fn percentage_refuses_what_is_out_of_range() {
    assert!(Percentage::try_new(Decimal::new(200, 0)).is_none());
    assert!(Percentage::try_new(Decimal::new(-20, 0)).is_none());
    assert!(Percentage::try_new(Decimal::new(10001, 2)).is_none());
    assert!(Percentage::try_new(Decimal::new(-1, 9)).is_none());
    assert!(!Percentage::is_rate(&Decimal::new(101, 0)));
}

#[test]
fn percentage_factor_is_one_plus_a_hundredth_of_it() {
    assert_eq!(percent(20, 0).factor(), Decimal::new(12, 1));
    assert_eq!(percent(0, 0).factor(), Decimal::new(1, 0));
    assert_eq!(percent(100, 0).factor(), Decimal::new(2, 0));
    assert_eq!(percent(55, 1).factor(), Decimal::new(1055, 3));
}

#[test]
fn discount_tiers_have_exclusive_thresholds() {
    assert_eq!(apply_discount(Decimal::new(1000, 0)), Decimal::new(1000, 0));
    assert_eq!(apply_discount(Decimal::new(100001, 2)), Decimal::new(9700097, 4));
    assert_eq!(apply_discount(Decimal::new(5000, 0)), Decimal::new(4850, 0));
    assert_eq!(apply_discount(Decimal::new(500001, 2)), Decimal::new(47500095, 4));
    assert_eq!(apply_discount(Decimal::new(999, 0)), Decimal::new(999, 0));
    assert_eq!(apply_discount(Decimal::new(0, 0)), Decimal::new(0, 0));
}

#[test]
fn negative_subtotal_has_no_discount() {
    assert_eq!(apply_discount(Decimal::new(-6000, 0)), Decimal::new(-6000, 0));
    assert_eq!(
        calculate_price(3, Decimal::new(-2000, 0), Some(percent(10, 0))),
        Decimal::new(-6600, 0)
    );
}

#[test]
fn price_is_discounted_subtotal_times_tax_factor() {
    let net = apply_discount(Decimal::new(7, 0).times(&Decimal::new(80050, 2)));
    assert_eq!(net, Decimal::new(53233250, 4));
    assert_eq!(
        calculate_price(7, Decimal::new(80050, 2), Some(percent(55, 1))),
        net.times(&Decimal::new(1055, 3))
    );
    assert_eq!(calculate_price(7, Decimal::new(80050, 2), None), net);
}

#[test]
fn zero_quantity_costs_nothing() {
    assert_eq!(
        calculate_price_formated(0, Decimal::new(1299, 0), Some(percent(10, 0))),
        String::from("0.00 €")
    );
}

#[test]
fn large_orders_do_not_overflow() {
    assert_eq!(
        calculate_price_formated(
            u32::MAX,
            Decimal::new(i64::MAX, 0),
            Some(percent(100, 0))
        ),
        String::from("75266754371026713835682240923.50 €")
    );
}

#[test]
fn price_does_not_depend_on_how_the_numbers_are_written() {
    assert_eq!(
        calculate_price(5, Decimal::new(34500, 2), Some(percent(1000, 2))),
        calculate_price(5, Decimal::new(345, 0), Some(percent(10, 0)))
    );
    assert_eq!(
        calculate_price_formated(5, Decimal::new(3450000, 4), Some(percent(100, 1))),
        String::from("1840.58 €")
    );
}
