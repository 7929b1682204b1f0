//! Normalization and replay of legacy records.

use qtp_core::legacy::{
    normalize, LegacyContext, LegacyQtpRules, LegacyReplay, NormalizeError, OrderReferenceIndex,
    ReplayError, ReplayErrorKind, ReplaySource, Resolution,
};
use qtp_core::market_data::{
    AddOrder, ApplySequence, BookEvent, BookKey, ChannelId, CrossingBehavior,
    LegacySteadyTimestampNs, LocalTimestampNs, Market, MarketDataRecord, OrderCancel, OrderId,
    OrderKey, OrderRecord, OrderReference, PriceScale, PricingInstruction, QuoteTimestampNs,
    RawEventTime, RawOrderSide, RawOrderType, RawPrice, RawTradeSide, RawTradeType, ScaledPrice,
    Side, Symbol, TradeRecord, TradingDay,
};
use qtp_core::order_book::{BookConfig, BookError, OrderBook};

const HOUR: i64 = 3_600_000_000_000;
const MINUTE: i64 = 60_000_000_000;

fn utc_for_shanghai(hour: i64, minute: i64) -> QuoteTimestampNs {
    QuoteTimestampNs::from_nanos((hour - 8) * HOUR + minute * MINUTE)
}

/// A decimal price of a record, in units of a ten-thousandth.
fn price(value: f64) -> RawPrice {
    let scaled = value * 10_000.0;
    let rounded = scaled.round();
    let scaled = if !value.is_finite() || value <= 0.0 {
        ScaledPrice::Invalid
    } else if scaled > i64::MAX as f64 {
        ScaledPrice::Overflow
    } else if (scaled - rounded).abs() > 1e-6 {
        ScaledPrice::Misaligned
    } else {
        ScaledPrice::Units(rounded as i64)
    };
    RawPrice { bits: value.to_bits(), scaled }
}

fn context() -> LegacyContext {
    LegacyContext {
        book_key: BookKey {
            market: Market::Sse,
            trading_day: TradingDay::from_yyyymmdd(20_250_102).unwrap(),
            symbol: Symbol::from("600000.SH"),
        },
        price_scale: PriceScale::from_decimal_places(4).unwrap(),
    }
}

fn time() -> RawEventTime {
    RawEventTime {
        steady_time: None,
        local_time: LocalTimestampNs::from_nanos(2),
        quote_time: QuoteTimestampNs::from_nanos(3),
    }
}

fn order_record(sequence: i64, side: RawOrderSide, order_id: i64, kind: RawOrderType) -> OrderRecord {
    OrderRecord {
        event_time: time(),
        symbol: Symbol::from("600000.SH"),
        kind,
        side,
        channel_no: 1,
        sequence,
        order_id,
        price: price(10.1234),
        quantity: 100,
    }
}

fn order(kind: RawOrderType) -> MarketDataRecord {
    MarketDataRecord::Order(order_record(1, RawOrderSide::Buy, 10, kind))
}

fn trade_record(sequence: i64, kind: RawTradeType, bid: i64, ask: i64) -> TradeRecord {
    TradeRecord {
        event_time: time(),
        symbol: Symbol::from("600000.SH"),
        kind,
        side: RawTradeSide::Unknown,
        channel_no: 1,
        sequence,
        bid_order_id: bid,
        ask_order_id: ask,
        price: price(10.0),
        quantity: 40,
    }
}

fn first_sequence() -> ApplySequence {
    ApplySequence::new(1).unwrap()
}

fn key(side: Side, channel: u32, id: u64) -> OrderKey {
    OrderKey {
        channel_id: ChannelId::new(channel).unwrap(),
        side,
        order_id: OrderId::new(id).unwrap(),
    }
}

fn normalized(record: &MarketDataRecord, references: &OrderReferenceIndex) -> Result<BookEvent, NormalizeError> {
    normalize(record, first_sequence(), &context(), references)
}

#[test]
fn uses_the_legacy_continuous_window() {
    assert_eq!(
        LegacyQtpRules::crossing_behavior(utc_for_shanghai(9, 29)),
        CrossingBehavior::Rest
    );
    assert_eq!(
        LegacyQtpRules::crossing_behavior(utc_for_shanghai(9, 30)),
        CrossingBehavior::HideIfCrossing
    );
    assert_eq!(
        LegacyQtpRules::crossing_behavior(utc_for_shanghai(14, 56)),
        CrossingBehavior::HideIfCrossing
    );
    assert_eq!(
        LegacyQtpRules::crossing_behavior(utc_for_shanghai(14, 57)),
        CrossingBehavior::Rest
    );
}

#[test]
fn maps_limit_and_reverse_best_to_provided_price() {
    for kind in [RawOrderType::LimitPrice, RawOrderType::ReverseBestPrice] {
        let event = normalize(
            &order(kind),
            first_sequence(),
            &context(),
            &OrderReferenceIndex::new(),
        );
        assert!(matches!(
            event,
            Ok(BookEvent::AddOrder(AddOrder { pricing: PricingInstruction::Provided(_), .. }))
        ));
    }
}

#[test]
fn ignores_legacy_steady_time() {
    let mut first = order(RawOrderType::LimitPrice);
    let mut second = first.clone();
    if let MarketDataRecord::Order(record) = &mut first {
        record.event_time.steady_time = Some(LegacySteadyTimestampNs::from_nanos(1));
    }
    if let MarketDataRecord::Order(record) = &mut second {
        record.event_time.steady_time = Some(LegacySteadyTimestampNs::from_nanos(999));
    }
    let references = OrderReferenceIndex::new();
    assert_eq!(
        normalize(&first, first_sequence(), &context(), &references),
        normalize(&second, first_sequence(), &context(), &references)
    );
}

#[test]
fn rejects_misaligned_prices() {
    let mut raw = order(RawOrderType::LimitPrice);
    if let MarketDataRecord::Order(record) = &mut raw {
        record.price = price(10.12345);
    }
    assert!(matches!(
        normalize(&raw, first_sequence(), &context(), &OrderReferenceIndex::new()),
        Err(NormalizeError::MisalignedPrice { .. })
    ));
}

#[test]
fn quote_time_selects_crossing_behavior() {
    let event = normalize(
        &order(RawOrderType::LimitPrice),
        first_sequence(),
        &context(),
        &OrderReferenceIndex::new(),
    );
    assert!(matches!(
        event,
        Ok(BookEvent::AddOrder(AddOrder { crossing: CrossingBehavior::Rest, .. }))
    ));
}

#[test]
fn every_price_fault_is_told_with_its_bits() {
    for (value, expected) in [
        (f64::NAN, NormalizeError::InvalidPrice(f64::NAN.to_bits())),
        (-1.5, NormalizeError::InvalidPrice((-1.5f64).to_bits())),
        (0.0, NormalizeError::InvalidPrice(0)),
        (10.12345, NormalizeError::MisalignedPrice { price: (10.12345f64).to_bits() }),
        (1e18, NormalizeError::PriceOverflow { price: (1e18f64).to_bits() }),
    ] {
        let mut record = order_record(1, RawOrderSide::Buy, 10, RawOrderType::LimitPrice);
        record.price = price(value);
        assert_eq!(
            normalized(&MarketDataRecord::Order(record), &OrderReferenceIndex::new()),
            Err(expected)
        );
    }
}

#[test]
fn every_other_fault_of_an_order_is_told() {
    let faults: [(fn(&mut OrderRecord), NormalizeError); 6] = [
        (
            |r| r.symbol = Symbol::from("600001.SH"),
            NormalizeError::SymbolMismatch {
                expected: "600000.SH".to_owned(),
                actual: "600001.SH".to_owned(),
            },
        ),
        (
            |r| r.side = RawOrderSide::Loan,
            NormalizeError::UnsupportedOrderSide(RawOrderSide::Loan),
        ),
        (
            |r| r.sequence = 0,
            NormalizeError::NonPositiveSigned { field: "order sequence", value: 0 },
        ),
        (
            |r| r.order_id = -3,
            NormalizeError::NonPositiveSigned { field: "order ID", value: -3 },
        ),
        (
            |r| r.channel_no = 0,
            NormalizeError::NonPositiveSigned { field: "order channel", value: 0 },
        ),
        (|r| r.quantity = 0, NormalizeError::ZeroUnsigned { field: "order quantity" }),
    ];
    for (spoil, expected) in faults {
        let mut record = order_record(1, RawOrderSide::Buy, 10, RawOrderType::LimitPrice);
        spoil(&mut record);
        let got = normalized(&MarketDataRecord::Order(record), &OrderReferenceIndex::new());
        match (&got, &expected) {
            (
                Err(NormalizeError::NonPositiveSigned { value: a, .. }),
                NormalizeError::NonPositiveSigned { value: b, .. },
            ) => assert_eq!(a, b),
            (Err(NormalizeError::ZeroUnsigned { .. }), NormalizeError::ZeroUnsigned { .. }) => {}
            _ => assert_eq!(got, Err(expected)),
        }
    }
}

#[test]
fn market_and_best_orders_take_their_instructions() {
    for (kind, expected) in [
        (RawOrderType::MarketPrice, PricingInstruction::OppositeBest),
        (RawOrderType::ForwardBestPrice, PricingInstruction::SameSideBest),
    ] {
        match normalized(&order(kind), &OrderReferenceIndex::new()) {
            Ok(BookEvent::AddOrder(add)) => {
                assert_eq!(add.pricing, expected);
                assert_eq!(add.order_key, key(Side::Buy, 1, 10));
                assert_eq!(add.quantity.get(), 100);
            }
            other => panic!("{other:?}"),
        }
    }
}

#[test]
fn cancellations_need_one_known_reference() {
    let mut references = OrderReferenceIndex::new();
    references.register(key(Side::Buy, 1, 10));
    references.register(key(Side::Sell, 1, 11));
    references.register(key(Side::Sell, 2, 11));
    let cancel = |bid, ask| {
        MarketDataRecord::Trade(trade_record(3, RawTradeType::Cancelled, bid, ask))
    };
    assert!(matches!(
        normalized(&cancel(10, 0), &references),
        Ok(BookEvent::OrderCancel(OrderCancel { order_key, .. })) if order_key == key(Side::Buy, 1, 10)
    ));
    for (bid, ask) in [(0, 0), (10, 11), (-1, 0)] {
        assert_eq!(normalized(&cancel(bid, ask), &references), Err(NormalizeError::AmbiguousCancellation));
    }
    assert_eq!(
        normalized(&cancel(0, 12), &references),
        Err(NormalizeError::UnresolvedCancellation {
            side: Side::Sell,
            order_id: OrderId::new(12).unwrap()
        })
    );
    assert_eq!(
        normalized(&cancel(0, 11), &references),
        Err(NormalizeError::AmbiguousOrderReference {
            side: Side::Sell,
            order_id: OrderId::new(11).unwrap()
        })
    );
}

#[test]
fn trades_resolve_what_is_known() {
    let mut references = OrderReferenceIndex::new();
    references.register(key(Side::Buy, 1, 10));
    match normalized(
        &MarketDataRecord::Trade(trade_record(3, RawTradeType::Trade, 10, 12)),
        &references,
    ) {
        Ok(BookEvent::Trade(trade)) => {
            assert_eq!(trade.bid_order, OrderReference::Resolved(key(Side::Buy, 1, 10)));
            assert_eq!(
                trade.ask_order,
                OrderReference::Unresolved { side: Side::Sell, order_id: OrderId::new(12).unwrap() }
            );
            assert_eq!(trade.price.units(), 100_000);
        }
        other => panic!("{other:?}"),
    }
}

#[test]
fn registered_orders_are_found_until_they_are_ambiguous() {
    let mut references = OrderReferenceIndex::new();
    let id = OrderId::new(5).unwrap();
    assert_eq!(references.resolve(Side::Buy, id), Resolution::Missing);
    references.register(key(Side::Buy, 1, 5));
    references.register(key(Side::Buy, 1, 5));
    assert_eq!(references.resolve(Side::Buy, id), Resolution::Unique(key(Side::Buy, 1, 5)));
    assert_eq!(references.resolve(Side::Sell, id), Resolution::Missing);
    references.register(key(Side::Buy, 2, 5));
    assert_eq!(references.resolve(Side::Buy, id), Resolution::Ambiguous);
    references.register(key(Side::Buy, 1, 5));
    assert_eq!(references.resolve(Side::Buy, id), Resolution::Ambiguous);
}

fn book() -> OrderBook {
    OrderBook::new(BookConfig::new(context().book_key, context().price_scale))
}

#[test]
fn replay_merges_by_sequence_and_goes_on_after_a_failure() {
    let mut replay = LegacyReplay::new(context());
    assert_eq!(replay.context().book_key, context().book_key);
    let mut book = book();
    let orders = vec![
        order_record(1, RawOrderSide::Buy, 10, RawOrderType::LimitPrice),
        order_record(3, RawOrderSide::Buy, 10, RawOrderType::LimitPrice),
    ];
    let trades = vec![trade_record(2, RawTradeType::Trade, 10, 0)];
    let error = replay.replay(&mut book, &orders, &trades).unwrap_err();
    assert!(matches!(
        error,
        ReplayError {
            kind: ReplayErrorKind::Apply(BookError::DuplicateOrder(_)),
            source: ReplaySource::Order,
            order_index: 1,
            trade_index: 1,
            ..
        }
    ));
    assert_eq!(error.apply_sequence.map(ApplySequence::get), Some(3));
    assert_eq!(book.order(&key(Side::Buy, 1, 10)).unwrap().remaining_quantity, 60);
    let rest = vec![order_record(4, RawOrderSide::Buy, 11, RawOrderType::LimitPrice)];
    assert!(replay.replay(&mut book, &rest, &Vec::new()).is_ok());
    assert_eq!(book.levels(Side::Buy)[0].total_quantity, 160);
}

#[test]
fn replay_refuses_disorder() {
    let fresh = || (LegacyReplay::new(context()), book());
    let limit = |sequence, id| order_record(sequence, RawOrderSide::Buy, id, RawOrderType::LimitPrice);

    let (mut replay, mut target) = fresh();
    let error = replay.replay(&mut target, &vec![limit(2, 1), limit(2, 2)], &Vec::new()).unwrap_err();
    assert_eq!(error.kind, ReplayErrorKind::NonIncreasingSequence { previous: 2, current: 2 });

    let (mut replay, mut target) = fresh();
    let error = replay.replay(&mut target, &vec![limit(0, 1)], &Vec::new()).unwrap_err();
    assert_eq!(error.kind, ReplayErrorKind::InvalidRawSequence { value: 0 });

    let (mut replay, mut target) = fresh();
    let trades = vec![trade_record(2, RawTradeType::Trade, 1, 0)];
    let error = replay.replay(&mut target, &vec![limit(2, 1)], &trades).unwrap_err();
    assert_eq!(error.kind, ReplayErrorKind::AmbiguousSequence { sequence: 2 });
    assert_eq!(error.source, ReplaySource::Both);

    let (mut replay, mut target) = fresh();
    assert!(replay.replay(&mut target, &vec![limit(1, 1)], &Vec::new()).is_ok());
    let error = LegacyReplay::new(context()).replay(&mut target, &vec![limit(2, 2)], &Vec::new()).unwrap_err();
    assert_eq!(error.kind, ReplayErrorKind::NonEmptyBook);

    let mut other = context();
    other.book_key.symbol = Symbol::from("600001.SH");
    let (_, mut target) = fresh();
    let error = LegacyReplay::new(other).replay(&mut target, &vec![limit(1, 1)], &Vec::new()).unwrap_err();
    assert_eq!(error.kind, ReplayErrorKind::ContextMismatch);
    assert!(target.is_empty());

    let (mut replay, mut target) = fresh();
    let mut spoiled = limit(1, 1);
    spoiled.quantity = 0;
    let error = replay.replay(&mut target, &vec![spoiled], &Vec::new()).unwrap_err();
    assert!(matches!(error.kind, ReplayErrorKind::Normalize(NormalizeError::ZeroUnsigned { .. })));
}

#[test]
fn steady_time_of_a_trade_is_ignored() {
    let mut references = OrderReferenceIndex::new();
    references.register(key(Side::Buy, 1, 7));
    let mut first = trade_record(1, RawTradeType::Trade, 7, 0);
    let mut second = first.clone();
    first.event_time.steady_time = None;
    second.event_time.steady_time = Some(LegacySteadyTimestampNs::from_nanos(999));
    assert_eq!(
        normalize(&MarketDataRecord::Trade(first), first_sequence(), &context(), &references),
        normalize(&MarketDataRecord::Trade(second), first_sequence(), &context(), &references)
    );
}
