//! Requests, times, schedules and snapshot cursors.

use chrono::{FixedOffset, NaiveDate, NaiveTime, TimeZone};
use qtp_core::market_data::{Market, QuoteTimestampNs, Symbol, TradingDay};
use qtp_core::production::{
    is_chinext_symbol, is_etf_symbol, is_stock_symbol, is_supported_symbol, parse_duration,
    parse_market_timestamp, request_policy, request_targets, time_of_day_nanos, Duration, MarketDayRequest, MarketTimestampParser,
    ProductionError, SnapshotCursor, SnapshotSchedule, SzMarketOrderPolicy, TargetUniverse,
};

fn day() -> TradingDay {
    TradingDay::from_yyyymmdd(20_260_828).expect("day")
}

#[test]
fn recognizes_supported_stock_codes() {
    assert!(is_stock_symbol(Market::Sse, "600000"));
    assert!(is_stock_symbol(Market::Sse, "688001"));
    assert!(!is_stock_symbol(Market::Sse, "510300"));
    assert!(is_etf_symbol(Market::Sse, "510300"));
    assert!(is_stock_symbol(Market::Szse, "000001"));
    assert!(is_stock_symbol(Market::Szse, "300001"));
    assert!(is_stock_symbol(Market::Szse, "302132"));
    assert!(!is_stock_symbol(Market::Szse, "159915"));
    assert!(is_etf_symbol(Market::Szse, "159915"));
}

#[test]
fn explicit_universe_is_exact() {
    let universe = TargetUniverse::Symbols(vec![Symbol::from("600000")]);
    assert!(universe.contains(Market::Sse, "600000"));
    assert!(!universe.contains(Market::Sse, "600001"));
}

#[test]
fn combined_universe_includes_stocks_and_etfs() {
    let universe = TargetUniverse::AllStocksAndEtfs;
    assert!(universe.contains(Market::Sse, "600000"));
    assert!(universe.contains(Market::Sse, "510300"));
    assert!(universe.contains(Market::Szse, "000001"));
    assert!(universe.contains(Market::Szse, "159915"));
    assert!(!universe.contains(Market::Sse, "110059"));
}

#[test]
fn etf_universe_excludes_stocks() {
    let universe = TargetUniverse::AllEtfs;
    assert!(universe.contains(Market::Szse, "159001"));
    assert!(!universe.contains(Market::Szse, "000001"));
}

#[test]
fn validates_snapshot_schedule() {
    assert!(SnapshotSchedule::new(Duration::from_millis(100), 10).is_ok());
    assert!(SnapshotSchedule::new(Duration::from_secs(0), 10).is_err());
    assert!(SnapshotSchedule::new(Duration::from_secs(1), 0).is_err());
}

#[test]
fn parses_explicit_duration_units() {
    let millis = parse_duration("100ms").expect("millis").as_millis();
    let seconds = parse_duration("30s").expect("seconds").as_secs();
    let minute = parse_duration("1m").expect("minute").as_secs();
    assert_eq!(millis, 100);
    assert_eq!(seconds, 30);
    assert_eq!(minute, 60);
    assert!(parse_duration("100").is_err());
}

#[test]
fn parses_shanghai_timestamp() {
    let nanos = parse_market_timestamp(day(), "09:30:00.010").expect("time");
    assert_eq!(time_of_day_nanos(QuoteTimestampNs::from_nanos(nanos)), 34_200_010_000_000);
}

#[test]
fn rejects_non_millisecond_text() {
    assert!(parse_market_timestamp(day(), "09:30:00").is_err());
    assert!(parse_market_timestamp(day(), "25:00:00.000").is_err());
}

#[test]
fn fixed_parser_matches_chrono_across_day_and_overflow_boundaries() {
    for encoded in [16770921, 19691231, 20000229, 20260828, 22620411] {
        let day = TradingDay::from_yyyymmdd(encoded).expect("day");
        let parser = MarketTimestampParser::new(day).expect("parser");
        let date = NaiveDate::parse_from_str(&encoded.to_string(), "%Y%m%d").expect("date");
        for hour in 0..24 {
            for minute in 0..60 {
                for (second, fraction) in [(0, 0), (29, 499), (59, 999), (60, 1)] {
                    let value = format!("{hour:02}:{minute:02}:{second:02}.{fraction:03}");
                    let time = NaiveTime::parse_from_str(&value, "%H:%M:%S%.3f").expect("time");
                    let expected = FixedOffset::east_opt(28_800)
                        .expect("offset")
                        .from_local_datetime(&date.and_time(time))
                        .single()
                        .expect("local")
                        .timestamp_millis()
                        .checked_mul(1_000_000);
                    assert_eq!(parser.parse(&value).ok(), expected, "{encoded} {value}");
                }
            }
        }
    }
}

#[test]
fn fixed_parser_rejects_invalid_digits_and_fields() {
    let parser = MarketTimestampParser::new(day()).expect("parser");
    for value in [
        "",
        "09:30:00",
        "09:30:00.0000",
        "24:00:00.000",
        "09:60:00.000",
        "09:30:61.000",
        "0x:30:00.000",
        "09:30:00.0x0",
        "09-30:00.000",
        "é:30:00.000",
        "09:30:00.-01",
    ] {
        assert!(parser.parse(value).is_err(), "{value}");
    }
}

#[test]
fn emits_boundaries_before_equal_time_event() {
    let schedule = SnapshotSchedule::new(Duration::from_secs(30), 10).expect("schedule");
    let mut cursor = SnapshotCursor::new(day(), &schedule).expect("cursor");
    let boundary = parse_market_timestamp(day(), "09:15:30.000").expect("time");
    let due = cursor.drain_due(boundary);
    assert_eq!(due, vec![boundary]);
}

#[test]
fn skips_lunch_grid() {
    let schedule = SnapshotSchedule::new(Duration::from_secs(60), 10).expect("schedule");
    let mut cursor = SnapshotCursor::new(day(), &schedule).expect("cursor");
    let due = cursor.finish();
    let morning_end = parse_market_timestamp(day(), "11:30:00.000").expect("time");
    let afternoon_first = parse_market_timestamp(day(), "13:01:00.000").expect("time");
    let morning_index = due.iter().position(|value| *value == morning_end);
    assert!(morning_index.is_some());
    if let Some(index) = morning_index {
        assert_eq!(due.get(index + 1), Some(&afternoon_first));
    }
}

#[test]
fn a_cursor_gives_each_time_once_and_in_order() {
    let schedule = SnapshotSchedule::new(Duration::from_secs(1_800), 10).expect("schedule");
    let mut whole = SnapshotCursor::new(day(), &schedule).expect("cursor");
    let all = whole.finish();
    let mut parts = SnapshotCursor::new(day(), &schedule).expect("cursor");
    let noon = parse_market_timestamp(day(), "12:00:00.000").expect("time");
    let mut collected = parts.drain_due(noon);
    assert!(collected.iter().all(|time| *time <= noon));
    assert!(parts.drain_due(noon).is_empty());
    collected.extend(parts.finish());
    assert_eq!(collected, all);
    assert!(all.windows(2).all(|pair| pair[0] < pair[1]));
    assert!(parts.finish().is_empty());
}

#[test]
fn durations_have_bounds_and_units() {
    for text in ["", "s", "-1s", "1h", "18446744073709551616s", "5 s", "1.5s"] {
        assert!(matches!(parse_duration(text), Err(_)), "{text}");
    }
    assert_eq!(parse_duration("2m").map(|d| d.as_nanos()), Ok(120_000_000_000));
    assert_eq!(Duration::from_nanos(1_999_999).as_millis(), 1);
    assert!(Duration::from_millis(0).is_zero());
}

#[test]
fn boards_are_told_apart() {
    assert!(is_chinext_symbol("300750"));
    assert!(!is_chinext_symbol("000001"));
    assert!(is_supported_symbol(Market::Sse, "588000"));
    for text in ["", "60000", "6000000", "60000x", "６00000"] {
        assert!(!is_supported_symbol(Market::Sse, text), "{text}");
    }
}

fn request() -> MarketDayRequest {
    MarketDayRequest {
        raw_root: "raw".to_owned(),
        output_root: "out".to_owned(),
        temp_root: "tmp".to_owned(),
        trading_day: day(),
        market: Market::Szse,
        targets: TargetUniverse::AllStocks,
        snapshots: None,
        batch_size: 10,
        sz_market_order_policy: SzMarketOrderPolicy::default(),
    }
}

#[test]
fn requests_are_checked() {
    assert!(request().validate().is_ok());
    let no_rows = MarketDayRequest { batch_size: 0, ..request() };
    assert!(no_rows.validate().is_err());
    let no_symbols = MarketDayRequest { targets: TargetUniverse::Symbols(vec![]), ..request() };
    assert!(no_symbols.validate().is_err());
    let foreign = MarketDayRequest {
        targets: TargetUniverse::Symbols(vec![Symbol::from("000001"), Symbol::from("600000")]),
        ..request()
    };
    assert_eq!(
        foreign.validate(),
        Err("symbol 600000 is not a supported stock or ETF for Szse".to_owned())
    );
}

#[test]
fn refused_times_are_told() {
    let error = parse_market_timestamp(day(), "9:30").expect_err("short");
    assert!(matches!(error, ProductionError::InvalidRequest(_)), "{error:?}");
    assert!(error.message().contains("9:30"), "{}", error.message());
}

#[test]
fn policy_defaults_are_market_specific() {
    for (market, expected) in [
        (Market::Szse, SzMarketOrderPolicy::RestAtLastTradePrice),
        (Market::Sse, SzMarketOrderPolicy::RequireEvidence),
    ] {
        assert_eq!(request_policy(market, None, false).expect("request"), expected);
    }
}

#[test]
fn policy_options_and_legacy_alias_are_explicit() {
    for expected in [
        SzMarketOrderPolicy::RestAtLastTradePrice,
        SzMarketOrderPolicy::RequireEvidence,
        SzMarketOrderPolicy::AssumeContiguous,
    ] {
        assert_eq!(
            request_policy(Market::Szse, Some(expected), false).expect("request"),
            expected
        );
        assert!(request_policy(Market::Sse, Some(expected), false).is_err());
    }
    assert_eq!(
        request_policy(Market::Szse, None, true).expect("request"),
        SzMarketOrderPolicy::AssumeContiguous
    );
    assert!(request_policy(Market::Sse, None, true).is_err());
}

#[test]
fn targets_follow_the_options() {
    let symbols = || vec![Symbol::from("600000")];
    assert_eq!(request_targets(symbols(), false, true), TargetUniverse::Symbols(symbols()));
    assert_eq!(request_targets(vec![], true, false), TargetUniverse::AllEtfs);
    assert_eq!(request_targets(vec![], false, true), TargetUniverse::AllStocksAndEtfs);
    assert_eq!(request_targets(vec![], false, false), TargetUniverse::AllStocks);
}

#[test]
fn drains_and_the_finish_together_are_the_grid() {
    let schedule = SnapshotSchedule::new(Duration::from_secs(60), 10).expect("schedule");
    let all = SnapshotCursor::new(day(), &schedule).expect("cursor").finish();
    assert_eq!(all.len(), 135 + 120);
    let mut cursor = SnapshotCursor::new(day(), &schedule).expect("cursor");
    let mut collected = Vec::new();
    for text in ["10:00:00.500", "09:20:00.000", "11:30:00.000", "12:59:59.999", "13:01:00.000"] {
        let quote = parse_market_timestamp(day(), text).expect("time");
        let due = cursor.drain_due(quote);
        assert!(due.iter().all(|time| *time <= quote));
        collected.extend(due);
        assert!(all[collected.len()..].iter().all(|time| *time > quote));
    }
    assert_eq!(collected.len(), 136);
    collected.extend(cursor.finish());
    assert_eq!(collected, all);
    assert!(cursor.finish().is_empty());
}
