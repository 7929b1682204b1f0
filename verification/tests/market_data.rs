//! Scalar types and normalized events.

use qtp_core::market_data::{
    ApplySequence, ChannelId, OrderId, Price, PriceScale, Quantity, RawSequence, Side, Symbol,
    TradingDay,
};

#[test]
fn validates_trading_days() {
    assert!(TradingDay::from_yyyymmdd(20_240_229).is_some());
    assert!(TradingDay::from_yyyymmdd(20_230_229).is_none());
    assert!(TradingDay::from_yyyymmdd(20_241_301).is_none());
}

#[test]
fn price_scale_is_bounded() {
    assert_eq!(PriceScale::from_decimal_places(4).map(PriceScale::multiplier), Some(10_000));
    assert!(PriceScale::from_decimal_places(10).is_none());
}

#[test]
fn days_of_leap_centuries_and_month_ends() {
    for (day, valid) in [
        (20_000_229, true),
        (19_000_229, false),
        (20_260_430, true),
        (20_260_431, false),
        (20_260_100, false),
        (20_260_001, false),
        (20_261_231, true),
    ] {
        assert_eq!(TradingDay::from_yyyymmdd(day).is_some(), valid, "{day}");
    }
    assert_eq!(TradingDay::from_yyyymmdd(20_261_231).map(TradingDay::as_yyyymmdd), Some(20_261_231));
}

#[test]
fn identifiers_and_quantities_are_not_zero() {
    assert!(Quantity::new(0).is_none());
    assert!(OrderId::new(0).is_none());
    assert!(RawSequence::new(0).is_none());
    assert!(ApplySequence::new(0).is_none());
    assert!(ChannelId::new(0).is_none());
    assert_eq!(Quantity::new(7).map(Quantity::get), Some(7));
    assert_eq!(OrderId::new(u64::MAX).map(OrderId::get), Some(u64::MAX));
    assert_eq!(ChannelId::new(2011).map(ChannelId::get), Some(2011));
}

#[test]
fn prices_are_positive_units() {
    assert!(Price::from_units(0).is_none());
    assert!(Price::from_units(-1).is_none());
    let low = Price::from_units(1).unwrap();
    let high = Price::from_units(2).unwrap();
    assert_eq!(low.units(), 1);
    assert_eq!(low.higher(high), high);
    assert_eq!(low.lower(high), low);
    assert!(low < high);
}

#[test]
fn scales_are_powers_of_ten() {
    assert_eq!(PriceScale::from_decimal_places(0).map(PriceScale::multiplier), Some(1));
    assert_eq!(PriceScale::from_decimal_places(9).map(PriceScale::multiplier), Some(1_000_000_000));
    assert_eq!(PriceScale::from_decimal_places(9).map(PriceScale::decimal_places), Some(9));
}

#[test]
fn sides_and_symbols() {
    assert_eq!(Side::Buy.opposite(), Side::Sell);
    assert_eq!(Side::Sell.opposite(), Side::Buy);
    let symbol = Symbol::from("000001");
    assert_eq!(symbol.as_str(), "000001");
    assert!(symbol.same(&Symbol::new("000001".to_owned())));
    assert!(!symbol.same(&Symbol::from(String::from("000002"))));
    assert_eq!(symbol.clone(), symbol);
}

#[test]
fn prices_compare_in_the_order_of_their_units() {
    let price = |units| Price::from_units(units).expect("price");
    assert!(price(1) < price(2));
    assert!(price(2) <= price(2));
    assert!(price(i64::MAX) > price(2));
    assert_eq!(price(3).partial_cmp(&price(3)), Some(std::cmp::Ordering::Equal));
    assert_eq!(price(3).cmp(&price(4)), std::cmp::Ordering::Less);
    assert_eq!(price(9).max(price(4)), price(9));
}
