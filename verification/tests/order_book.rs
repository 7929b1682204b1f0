//! The order book, event by event.

use qtp_core::market_data::{
    AddOrder, ApplySequence, BookEvent, BookKey, ChannelId, CrossingBehavior, EventMeta,
    LocalTimestampNs, Market, OrderCancel, OrderId, OrderKey, OrderReference, Price, PriceScale,
    PricingInstruction, Quantity, QuoteTimestampNs, RawSequence, Side, Symbol, Trade, TradingDay,
};
use qtp_core::order_book::{
    ApplyOutcome, BookConfig, BookError, OrderBook, OrderLocation, UnknownTradePolicy,
};

fn book_key() -> BookKey {
    BookKey {
        market: Market::Szse,
        symbol: Symbol::from("000001"),
        trading_day: TradingDay::from_yyyymmdd(20_260_828).expect("date"),
    }
}

fn config() -> BookConfig {
    BookConfig::new(book_key(), PriceScale::from_decimal_places(4).expect("scale"))
}

fn key(side: Side, id: u64) -> OrderKey {
    OrderKey {
        side,
        channel_id: ChannelId::new(1).expect("channel"),
        order_id: OrderId::new(id).expect("id"),
    }
}

fn meta(n: u64) -> EventMeta {
    EventMeta {
        book_key: book_key(),
        raw_sequence: RawSequence::new(n).expect("raw"),
        apply_sequence: ApplySequence::new(n).expect("apply"),
        local_time: LocalTimestampNs::from_nanos(7),
        quote_time: QuoteTimestampNs::from_nanos(6),
    }
}

fn units(value: i64) -> Price {
    Price::from_units(value).expect("price")
}

fn add_at(n: u64, k: OrderKey, price: i64, quantity: u64, crossing: CrossingBehavior) -> BookEvent {
    BookEvent::AddOrder(AddOrder {
        meta: meta(n),
        order_key: k,
        pricing: PricingInstruction::Provided(units(price)),
        crossing,
        quantity: Quantity::new(quantity).expect("quantity"),
    })
}

fn cancel(n: u64, k: OrderKey) -> BookEvent {
    BookEvent::OrderCancel(OrderCancel { meta: meta(n), order_key: k })
}

fn trade(n: u64, bid: OrderReference, ask: OrderReference, price: i64, quantity: u64) -> BookEvent {
    BookEvent::Trade(Trade {
        meta: meta(n),
        bid_order: bid,
        ask_order: ask,
        price: units(price),
        quantity: Quantity::new(quantity).expect("quantity"),
    })
}

/// Everything that can be seen of a book.
fn picture(book: &OrderBook) -> String {
    let mut text = format!("{:?} {:?} {:?}", book.summary(), book.statistics(), book.cache_revision());
    for side in [Side::Buy, Side::Sell] {
        for level in book.levels(side) {
            text.push_str(&format!("{level:?} {:?}", book.orders_at(side, level.price)));
        }
        for id in 1..20 {
            text.push_str(&format!("{:?}", book.order(&key(side, id))));
        }
    }
    text
}

#[test]
fn explicit_pending_rest_preserves_metadata_fifo_and_failure_atomicity() {
    let mut book = OrderBook::new(config());
    let p = units(100_000);
    let add = |n, k, crossing| add_at(n, k, 100_000, 10, crossing);
    let first = key(Side::Buy, 1);
    let pending = key(Side::Buy, 2);
    let ask = key(Side::Sell, 3);
    book.apply(add(1, first, CrossingBehavior::Rest)).expect("first");
    book.apply(add(2, pending, CrossingBehavior::AlwaysHide)).expect("pending");
    book.apply(add(3, ask, CrossingBehavior::Rest)).expect("ask");
    let before = picture(&book);
    let failed_revision = book.cache_revision();
    assert!(book.rest_pending_order(pending, p).is_err());
    assert_eq!(book.cache_revision(), failed_revision);
    assert_eq!(picture(&book), before);
    book.apply(cancel(4, ask)).expect("cancel");
    let last_meta = book.last_applied_meta().cloned();
    let revision = book.cache_revision().expect("revision");
    book.rest_pending_order(pending, p).expect("rest");
    assert_eq!(book.cache_revision(), Some(revision + 1));
    assert_eq!(book.last_applied_meta(), last_meta.as_ref());
    let later = key(Side::Buy, 5);
    book.apply(add(5, later, CrossingBehavior::Rest)).expect("later");
    assert_eq!(
        book.orders_at(Side::Buy, p).iter().map(|o| o.key).collect::<Vec<_>>(),
        [first, pending, later]
    );
    assert_eq!(book.levels(Side::Buy)[0].total_quantity, 30);
    assert!(book.check_invariants().is_ok());
    let mut book = book.with_cache_revision(u64::MAX - 1);
    book.apply(add(6, key(Side::Buy, 6), CrossingBehavior::Rest)).expect("saturate");
    assert_eq!(book.cache_revision(), None);
    book.apply(add(7, key(Side::Buy, 7), CrossingBehavior::Rest)).expect("no wrap");
    assert_eq!(book.cache_revision(), None);
}

#[test]
fn a_new_book_is_empty() {
    let book = OrderBook::new(config());
    assert!(book.is_empty());
    assert_eq!(book.config(), &config());
    assert!(book.last_applied_meta().is_none());
    assert_eq!(book.next_apply_sequence().map(ApplySequence::get), Ok(1));
    assert!(book.levels(Side::Buy).is_empty());
    assert!(book.best_level(Side::Sell).is_none());
    assert_eq!(book.statistics().trade_count, 0);
    assert!(book.check_invariants().is_ok());
}

#[test]
fn depth_comes_best_first_and_is_cut() {
    let mut book = OrderBook::new(config());
    for (n, side, price) in [
        (1, Side::Buy, 100),
        (2, Side::Buy, 300),
        (3, Side::Buy, 200),
        (4, Side::Sell, 500),
        (5, Side::Sell, 400),
        (6, Side::Sell, 600),
    ] {
        book.apply(add_at(n, key(side, n), price, 10 * n, CrossingBehavior::Rest)).expect("add");
    }
    let depth = book.depth(2);
    assert_eq!(depth.bids.iter().map(|l| l.price.units()).collect::<Vec<_>>(), [300, 200]);
    assert_eq!(depth.asks.iter().map(|l| l.price.units()).collect::<Vec<_>>(), [400, 500]);
    assert_eq!(book.depth(9).bids.len(), 3);
    assert_eq!(book.best_level(Side::Buy).map(|l| l.total_quantity), Some(20));
    assert_eq!(book.level_at_rank(Side::Sell, 2).map(|l| l.price.units()), Some(600));
    assert!(book.level_at_rank(Side::Sell, 3).is_none());
    assert_eq!(book.visible_aggregate(Side::Buy), (60, 100 * 10 + 300 * 20 + 200 * 30));
    let summary = book.summary();
    assert_eq!(summary.active_order_count, 6);
    assert_eq!(summary.last_apply_sequence.map(ApplySequence::get), Some(6));
    assert_eq!(summary.best_ask.map(|l| l.price.units()), Some(400));
    assert!(book.check_invariants().is_ok());
}

#[test]
fn a_cancelled_order_leaves_the_levels_as_they_were() {
    let mut book = OrderBook::new(config());
    book.apply(add_at(1, key(Side::Buy, 1), 100, 10, CrossingBehavior::Rest)).expect("add");
    let levels = book.levels(Side::Buy);
    book.apply(add_at(2, key(Side::Buy, 2), 100, 5, CrossingBehavior::Rest)).expect("add");
    assert_eq!(
        book.apply(cancel(3, key(Side::Buy, 2))),
        Ok(ApplyOutcome::Cancelled { key: key(Side::Buy, 2), cancelled_quantity: 5 })
    );
    assert_eq!(book.levels(Side::Buy), levels);
    assert!(book.order(&key(Side::Buy, 2)).is_none());
}

#[test]
fn refused_events_leave_the_book_as_it_was() {
    let mut book = OrderBook::new(config());
    book.apply(add_at(1, key(Side::Buy, 1), 100, 10, CrossingBehavior::Rest)).expect("add");
    let before = picture(&book);
    let mut foreign = meta(2);
    foreign.book_key.symbol = Symbol::from("000002");
    let foreign = BookEvent::OrderCancel(OrderCancel { meta: foreign, order_key: key(Side::Buy, 1) });
    let unpriced = BookEvent::AddOrder(AddOrder {
        meta: meta(2),
        order_key: key(Side::Buy, 2),
        pricing: PricingInstruction::Unpriced,
        crossing: CrossingBehavior::Rest,
        quantity: Quantity::new(1).unwrap(),
    });
    let no_reference = BookEvent::AddOrder(AddOrder {
        meta: meta(2),
        order_key: key(Side::Buy, 2),
        pricing: PricingInstruction::OppositeBest,
        crossing: CrossingBehavior::Rest,
        quantity: Quantity::new(1).unwrap(),
    });
    let known = OrderReference::Resolved(key(Side::Buy, 1));
    let cases = vec![
        (foreign, "key"),
        (cancel(3, key(Side::Buy, 1)), "sequence"),
        (add_at(2, key(Side::Buy, 1), 100, 1, CrossingBehavior::Rest), "duplicate"),
        (no_reference, "reference price"),
        (unpriced, "unpriced"),
        (cancel(2, key(Side::Buy, 9)), "unknown cancellation"),
        (trade(2, OrderReference::Absent, known, 100, 1), "side"),
        (
            trade(
                2,
                OrderReference::Unresolved { side: Side::Buy, order_id: OrderId::new(9).unwrap() },
                OrderReference::Absent,
                100,
                1,
            ),
            "unknown trade",
        ),
        (trade(2, known, OrderReference::Absent, 100, 11), "overfill"),
    ];
    for (event, what) in cases {
        let error = book.apply(event).expect_err(what);
        let matched = match what {
            "key" => matches!(error, BookError::BookKeyMismatch { .. }),
            "sequence" => matches!(error, BookError::InvalidApplySequence { expected, actual }
                if expected.get() == 2 && actual.get() == 3),
            "duplicate" => error == BookError::DuplicateOrder(key(Side::Buy, 1)),
            "reference price" => matches!(error, BookError::ReferencePriceUnavailable { .. }),
            "unpriced" => error == BookError::UnpricedVisibleOrder,
            "unknown cancellation" => error == BookError::UnknownCancellation(key(Side::Buy, 9)),
            "side" => matches!(error, BookError::InvalidTradeReferenceSide {
                expected: Side::Sell, actual: Side::Buy }),
            "unknown trade" => matches!(error, BookError::UnknownTradeReference { side: Side::Buy, .. }),
            _ => error == BookError::TradeOverfill { key: key(Side::Buy, 1), remaining: 10, trade: 11 },
        };
        assert!(matched, "{what}: {error:?}");
        assert!(!error.message().is_empty());
        assert_eq!(picture(&book), before, "{what}");
    }
}

#[test]
fn trades_reduce_what_they_name_and_are_counted() {
    let mut book = OrderBook::new(config());
    book.apply(add_at(1, key(Side::Buy, 1), 100, 10, CrossingBehavior::Rest)).expect("add");
    book.apply(add_at(2, key(Side::Sell, 2), 110, 4, CrossingBehavior::Rest)).expect("add");
    let outcome = book.apply(trade(
        3,
        OrderReference::Resolved(key(Side::Buy, 1)),
        OrderReference::Resolved(key(Side::Sell, 2)),
        105,
        4,
    ));
    assert_eq!(outcome, Ok(ApplyOutcome::Traded { bid_reduction: 4, ask_reduction: 4 }));
    assert_eq!(book.order(&key(Side::Buy, 1)).map(|o| o.remaining_quantity), Some(6));
    assert!(book.order(&key(Side::Sell, 2)).is_none());
    assert!(book.best_level(Side::Sell).is_none());
    let statistics = book.statistics();
    assert_eq!(statistics.trade_count, 1);
    assert_eq!(statistics.total_quantity, 4);
    assert_eq!(statistics.total_turnover_units, 420);
    assert_eq!(statistics.last_price.map(Price::units), Some(105));
}

#[test]
fn unknown_trades_count_where_they_may() {
    let mut book = OrderBook::new(
        config().with_unknown_trade_policy(UnknownTradePolicy::UpdateKnownAndStatistics),
    );
    book.apply(add_at(1, key(Side::Buy, 1), 100, 10, CrossingBehavior::Rest)).expect("add");
    let unknown = OrderReference::Unresolved { side: Side::Sell, order_id: OrderId::new(9).unwrap() };
    assert_eq!(
        book.apply(trade(2, OrderReference::Resolved(key(Side::Buy, 1)), unknown, 100, 3)),
        Ok(ApplyOutcome::Traded { bid_reduction: 3, ask_reduction: 0 })
    );
    assert_eq!(book.statistics().total_quantity, 3);
}

#[test]
fn crossing_orders_hide_and_come_back() {
    let mut book = OrderBook::new(config());
    book.apply(add_at(1, key(Side::Sell, 1), 100, 5, CrossingBehavior::Rest)).expect("ask");
    let outcome = book.apply(add_at(2, key(Side::Buy, 2), 110, 8, CrossingBehavior::HideIfCrossing));
    assert!(matches!(outcome, Ok(ApplyOutcome::Added { location: OrderLocation::Aggressive, .. })));
    assert!(book.best_level(Side::Buy).is_none());
    assert_eq!(book.summary().active_order_count, 2);
    book.apply(trade(
        3,
        OrderReference::Resolved(key(Side::Buy, 2)),
        OrderReference::Resolved(key(Side::Sell, 1)),
        100,
        5,
    ))
    .expect("trade");
    assert_eq!(book.best_level(Side::Buy).map(|l| (l.price.units(), l.total_quantity)), Some((110, 3)));
    assert_eq!(book.order(&key(Side::Buy, 2)).map(|o| o.location), Some(OrderLocation::Resting));
}

#[test]
fn market_to_limit_orders_rest_at_their_last_trade_price() {
    let mut book = OrderBook::new(config());
    book.apply(add_at(1, key(Side::Sell, 1), 100, 5, CrossingBehavior::Rest)).expect("ask");
    book.apply(BookEvent::AddOrder(AddOrder {
        meta: meta(2),
        order_key: key(Side::Buy, 2),
        pricing: PricingInstruction::Unpriced,
        crossing: CrossingBehavior::RestAtLastTradePrice,
        quantity: Quantity::new(8).unwrap(),
    }))
    .expect("market order");
    book.apply(trade(
        3,
        OrderReference::Resolved(key(Side::Buy, 2)),
        OrderReference::Resolved(key(Side::Sell, 1)),
        100,
        5,
    ))
    .expect("trade");
    assert_eq!(book.best_level(Side::Buy).map(|l| (l.price.units(), l.total_quantity)), Some((100, 3)));
}

#[test]
fn best_prices_are_taken_from_the_sides() {
    let mut book = OrderBook::new(config());
    book.apply(add_at(1, key(Side::Buy, 1), 100, 5, CrossingBehavior::Rest)).expect("bid");
    book.apply(add_at(2, key(Side::Sell, 2), 120, 5, CrossingBehavior::Rest)).expect("ask");
    for (n, pricing, expected) in [
        (3, PricingInstruction::SameSideBest, 100),
        (4, PricingInstruction::OppositeBest, 120),
    ] {
        let outcome = book.apply(BookEvent::AddOrder(AddOrder {
            meta: meta(n),
            order_key: key(Side::Buy, n),
            pricing,
            crossing: CrossingBehavior::HideIfCrossing,
            quantity: Quantity::new(1).unwrap(),
        }));
        assert!(matches!(outcome, Ok(ApplyOutcome::Added { effective_price: Some(price), .. })
            if price.units() == expected));
    }
}

#[test]
fn keys_are_used_once() {
    let mut book = OrderBook::new(config());
    book.apply(add_at(1, key(Side::Buy, 1), 100, 5, CrossingBehavior::Rest)).expect("add");
    book.apply(cancel(2, key(Side::Buy, 1))).expect("cancel");
    assert_eq!(
        book.apply(add_at(3, key(Side::Buy, 1), 100, 5, CrossingBehavior::Rest)),
        Err(BookError::DuplicateOrder(key(Side::Buy, 1)))
    );
    assert!(book.apply(add_at(3, key(Side::Sell, 1), 100, 5, CrossingBehavior::Rest)).is_ok());
}

#[test]
fn overflowing_counters_are_refused() {
    let mut book = OrderBook::new(config());
    book.apply(add_at(1, key(Side::Buy, 1), 1, u64::MAX, CrossingBehavior::Rest)).expect("add");
    assert!(matches!(
        book.apply(add_at(2, key(Side::Buy, 2), 1, 1, CrossingBehavior::Rest)),
        Err(BookError::ArithmeticOverflow(_))
    ));
    assert_eq!(book.next_apply_sequence().map(ApplySequence::get), Ok(2));
}

#[test]
fn visible_orders_keep_their_price() {
    let mut book = OrderBook::new(config());
    let bid = key(Side::Buy, 1);
    let ask = key(Side::Sell, 2);
    book.apply(add_at(1, bid, 100, 9, CrossingBehavior::Rest)).expect("bid");
    book.apply(add_at(2, ask, 90, 9, CrossingBehavior::Rest)).expect("ask");
    let named = |k| OrderReference::Resolved(k);
    book.apply(trade(3, named(bid), named(ask), 95, 4)).expect("trade");
    for (k, price) in [(bid, 100), (ask, 90)] {
        let order = book.order(&k).expect("order");
        assert_eq!(order.location, OrderLocation::Resting);
        assert_eq!(order.effective_price, Some(units(price)));
        assert_eq!(order.remaining_quantity, 5);
    }
}

#[test]
fn hidden_orders_stay_hidden() {
    let mut book = OrderBook::new(config());
    let hidden = key(Side::Buy, 1);
    book.apply(add_at(1, hidden, 100, 9, CrossingBehavior::AlwaysHide)).expect("hidden");
    book.apply(trade(2, OrderReference::Resolved(hidden), OrderReference::Absent, 95, 4))
        .expect("trade");
    let order = book.order(&hidden).expect("order");
    assert_eq!(order.location, OrderLocation::Aggressive);
    assert_eq!(order.effective_price, Some(units(100)));
    assert!(book.levels(Side::Buy).is_empty());
}

#[test]
fn remainders_wait_while_they_cross() {
    let mut book = OrderBook::new(config());
    let market = key(Side::Buy, 3);
    book.apply(add_at(1, key(Side::Sell, 1), 100, 5, CrossingBehavior::Rest)).expect("ask");
    book.apply(add_at(2, key(Side::Sell, 2), 90, 5, CrossingBehavior::Rest)).expect("ask");
    book.apply(BookEvent::AddOrder(AddOrder {
        meta: meta(3),
        order_key: market,
        pricing: PricingInstruction::Unpriced,
        crossing: CrossingBehavior::RestAtLastTradePrice,
        quantity: Quantity::new(20).unwrap(),
    }))
    .expect("market order");
    let named = |k| OrderReference::Resolved(k);
    book.apply(trade(4, named(market), named(key(Side::Sell, 2)), 90, 5)).expect("trade");
    let order = book.order(&market).expect("order");
    assert_eq!((order.location, order.effective_price), (OrderLocation::Resting, Some(units(90))));
    let mut book = OrderBook::new(config());
    book.apply(add_at(1, key(Side::Sell, 1), 80, 5, CrossingBehavior::Rest)).expect("ask");
    book.apply(add_at(2, key(Side::Sell, 2), 90, 5, CrossingBehavior::Rest)).expect("ask");
    book.apply(BookEvent::AddOrder(AddOrder {
        meta: meta(3),
        order_key: market,
        pricing: PricingInstruction::Unpriced,
        crossing: CrossingBehavior::RestAtLastTradePrice,
        quantity: Quantity::new(20).unwrap(),
    }))
    .expect("market order");
    book.apply(trade(4, named(market), named(key(Side::Sell, 2)), 90, 5)).expect("trade");
    let order = book.order(&market).expect("order");
    assert_eq!((order.location, order.effective_price), (OrderLocation::Aggressive, Some(units(90))));
}

#[test]
fn a_book_shows_what_it_holds() {
    let mut book = OrderBook::new(config());
    for (n, id, price, quantity) in [(1, 1, 100_000, 10), (2, 2, 100_100, 20), (3, 3, 100_000, 5)] {
        book.apply(add_at(n, key(Side::Buy, id), price, quantity, CrossingBehavior::Rest))
            .expect("apply");
    }
    let levels = book.levels(Side::Buy);
    assert_eq!(levels.len(), 2);
    assert_eq!(levels[0].price, units(100_100));
    assert_eq!(levels[0].total_quantity, 20);
    assert_eq!(levels[1].price, units(100_000));
    assert_eq!(levels[1].total_quantity, 15);
    assert_eq!(levels[1].order_count, 2);
    assert_eq!(book.check_invariants(), Ok(()));
}
