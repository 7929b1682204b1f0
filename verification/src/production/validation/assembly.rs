//! What observers are set up with, which references are loaded, and what reports are put
//! together from.

use vstd::prelude::*;

use crate::market_data::Market;
use crate::order_book::MetaModel;
use crate::text::{begins, ends, lemma_ends_of_texts, nat_text, trimmed};

use super::super::error::{ErrorModel, ProductionError};
use super::super::layout::columns_are_found_by_their_name;
use super::super::replay::{DayModel, Observed, ReplayReport};
use super::super::schema::{column_place, ColumnModel, ColumnType};
use super::super::symbol_map::{ascending, ascending_lists_are_unique, listing};
use super::super::time::clock_result;
use super::super::types::{
    spec_is_etf, spec_is_supported, spec_names, MarketDayRequest, SzMarketOrderPolicy,
    TargetUniverse, ValidationAnchor, ValidationConfig,
};
use super::candidate::{AnchorModel, Judgment, ReferenceModel};
use super::close_range::{limits_are_valid, LimitsModel};
use super::columns::{
    bound_limits, bound_place, bound_places, reference_column, reference_column_count,
    ColumnsModel, RawKind,
};
use super::counts::{bumped, bumped_fields, CoverageCounts, CoverageModel, RunOutcome};
use super::day::{final_draft, validated};
use super::difference::{DifferenceMask, DifferenceModel};
use super::laws::one;
use super::loader::{
    has_twin, is_explicit, times_ascend, twins_are_neighbours, twins_marked, LoadModel,
    LoadErrorModel, LoadedReferences, LoaderModel, RawReferenceModel,
};
use super::observer::{references_views, ObserverModel};
use super::phases::{count_of, whole_millis, SelectionModel};
use super::report::{
    audit_of, classified, encoded_size, precedes, prefix_counts, record_place, record_views,
    shell_of, sorted_records, symbol_prefix, DraftModel, RecordModel, Retention, ShellModel,
    ValidationReport,
};
use super::setup::{configured, full_day_model, pre_open_model};
use super::window::{ReferencesModel, SymbolModel};

verus! {

/// An observer is refused where its lookback exceeds a second or its horizon does not lie
/// between a millisecond and three seconds, and for no other reason. One that is accepted has
/// the windows that were asked for; without a wish it looks back a second in Shanghai, not at
/// all in Shenzhen, and ahead a second.
pub proof fn observers_have_the_windows_asked_for(
    market: Market,
    references: Map<Seq<char>, ReferencesModel>,
    pre_open_only: bool,
    config: ValidationConfig,
)
    ensures
        ({
            let base = ObserverModel::fresh(market, references, pre_open_only);
            let back = config.continuous_lookback;
            let ahead = config.continuous_lookahead;
            &&& configured(base, config) is Ok <==> {
                &&& back is Some ==> back->0.spec_nanos() <= 1_000_000_000
                &&& ahead is Some ==> 1_000_000 <= ahead->0.spec_nanos() <= 3_000_000_000
            }
            &&& configured(base, config) matches Ok(model) ==> {
                &&& model.market == market
                &&& model.pre_open_only == pre_open_only
                &&& model.max_detail_records == config.max_detail_records
                &&& model.continuous_lookback_ns == if back is Some {
                    back->0.spec_nanos() as int
                } else if market == Market::Sse {
                    1_000_000_000
                } else {
                    0
                }
                &&& model.continuous_lookahead_ns == if ahead is Some {
                    ahead->0.spec_nanos() as int
                } else {
                    1_000_000_000
                }
                &&& model.lookahead_override <==> ahead is Some
                &&& model.diagnostic_window_override <==> back is Some || ahead is Some
                &&& model.symbols.dom() == references.dom()
                &&& forall|symbol: Seq<char>| #[trigger]
                    references.contains_key(symbol) ==> {
                        let state = model.symbols[symbol];
                        &&& state.references == references[symbol]
                        &&& state.rules is None && state.limits is None
                        &&& state.close_price is None && state.channel is None
                        &&& !state.seen && state.continuous_position == 0
                    }
            }
        }),
{
    let base = ObserverModel::fresh(market, references, pre_open_only);
    if let Ok(model) = configured(base, config) {
        assert(model.symbols.dom() =~= references.dom());
    }
}

/// The observer of a whole day has the references and the limits that were loaded, each with
/// its symbol; the observer of the open alone has the references only.
pub proof fn observers_start_with_what_was_loaded(
    config: ValidationConfig,
    references: LoadedReferences,
    symbol: Seq<char>,
)
    ensures
        full_day_model(config, references) is Ok <==> pre_open_model(config, references) is Ok,
        full_day_model(config, references) matches Ok(model) ==> {
            &&& !model.pre_open_only
            &&& model.market == config.request.market
            &&& model.symbols.contains_key(symbol) <==> references.books@.contains_key(symbol)
                || references.sz_close_limits@.contains_key(symbol)
            &&& references.books@.contains_key(symbol) ==> model.symbols[symbol].references
                == references.books@[symbol]@
            &&& references.sz_close_limits@.contains_key(symbol)
                ==> model.symbols[symbol].limits == Some(references.sz_close_limits@[symbol]@)
            &&& model.symbols.contains_key(symbol) && !references.sz_close_limits@.contains_key(
                symbol,
            ) ==> model.symbols[symbol].limits is None
            &&& model.selection_audit.contains_key(symbol)
                <==> references.selection_audit@.contains_key(symbol)
            &&& references.selection_audit@.contains_key(symbol) ==> model.selection_audit[symbol]
                == references.selection_audit@[symbol]@
        },
        pre_open_model(config, references) matches Ok(model) ==> {
            &&& model.pre_open_only
            &&& model.market == config.request.market
            &&& model.symbols.contains_key(symbol) <==> references.books@.contains_key(symbol)
            &&& references.books@.contains_key(symbol) ==> {
                &&& model.symbols[symbol].references == references.books@[symbol]@
                &&& model.symbols[symbol].limits is None
            }
            &&& model.selection_audit.contains_key(symbol)
                <==> references.selection_audit@.contains_key(symbol)
            &&& references.selection_audit@.contains_key(symbol) ==> model.selection_audit[symbol]
                == references.selection_audit@[symbol]@
        },
{
    let books = references_views(references.books@);
    observers_have_the_windows_asked_for(config.request.market, books, false, config);
    observers_have_the_windows_asked_for(config.request.market, books, true, config);
    assert(books.contains_key(symbol) <==> references.books@.contains_key(symbol));
    if let Ok(model) = configured(
        ObserverModel::fresh(config.request.market, books, false),
        config,
    ) {
        assert(model.symbols.contains_key(symbol) <==> model.symbols.dom().contains(symbol));
        assert(books.contains_key(symbol) <==> books.dom().contains(symbol));
    }
    if let Ok(model) = configured(ObserverModel::fresh(config.request.market, books, true), config) {
        assert(model.symbols.contains_key(symbol) <==> model.symbols.dom().contains(symbol));
        assert(books.contains_key(symbol) <==> books.dom().contains(symbol));
    }
}

/// What is shown of one symbol leaves the others and the configuration as they were. A trade
/// matters in Shenzhen and over a whole day only, and then it adds to the closing price of its
/// symbol and to nothing else.
pub proof fn observations_touch_their_symbol(
    observer: ObserverModel,
    observed: Observed,
    other: Seq<char>,
)
    ensures
        ({
            let after = observer.shown(observed);
            let symbol = match observed {
                Observed::State { symbol, .. } => symbol,
                Observed::Trade { symbol, .. } => symbol,
            };
            &&& after.market == observer.market
            &&& after.pre_open_only == observer.pre_open_only
            &&& after.continuous_lookback_ns == observer.continuous_lookback_ns
            &&& after.continuous_lookahead_ns == observer.continuous_lookahead_ns
            &&& after.lookahead_override == observer.lookahead_override
            &&& after.diagnostic_window_override == observer.diagnostic_window_override
            &&& after.selection_audit == observer.selection_audit
            &&& after.max_detail_records == observer.max_detail_records
            &&& other != symbol ==> {
                &&& after.symbols.contains_key(other) <==> observer.symbols.contains_key(other)
                &&& after.symbols[other] == observer.symbols[other]
            }
            &&& observed is Trade && (observer.market == Market::Sse || observer.pre_open_only)
                ==> after == observer
            &&& observed is Trade && observer.market == Market::Szse && !observer.pre_open_only
                ==> {
                let state = after.symbols[symbol];
                let before = observer.symbol(symbol);
                &&& after.symbols.contains_key(symbol)
                &&& state.close_price is Some
                &&& state == SymbolModel { close_price: state.close_price, ..before }
            }
        }),
{
}

/// Of references in the order of time, those whose time occurs more than once are marked as
/// duplicates, with the name of their symbol; all others, and everything else of them, stay.
pub proof fn references_of_one_time_are_refused(
    references: Seq<ReferenceModel>,
    symbol: Seq<char>,
    i: int,
)
    requires
        times_ascend(references),
        0 <= i < references.len(),
    ensures
        ({
            let marked = twins_marked(references, symbol);
            let duplicate = exists|j: int|
                0 <= j < references.len() && j != i && (#[trigger] references[j]).time_ns
                    == references[i].time_ns;
            &&& marked.len() == references.len()
            &&& !duplicate ==> marked[i] == references[i]
            &&& duplicate ==> {
                let text = "duplicate continuous reference timestamp for "@ + symbol;
                &&& marked[i].load_error == Some(text)
                &&& marked[i] == (ReferenceModel { load_error: Some(text), ..references[i] })
            }
        }),
{
    let duplicate = exists|j: int|
        0 <= j < references.len() && j != i && (#[trigger] references[j]).time_ns
            == references[i].time_ns;
    if duplicate {
        let j = choose|j: int|
            0 <= j < references.len() && j != i && (#[trigger] references[j]).time_ns
                == references[i].time_ns;
        twins_are_neighbours(references, i, j);
    }
    if has_twin(references, i) {
        if i > 0 && references[i - 1].time_ns == references[i].time_ns {
            assert(references[i - 1].time_ns == references[i].time_ns);
        } else {
            assert(references[i + 1].time_ns == references[i].time_ns);
        }
    }
}

/// What was loaded has every symbol that the rows gave or that is asked for by name, and no
/// other. A symbol that no row named has no references; the others have those of the open and
/// of the close as the rows gave them, and as many of continuous trading.
pub proof fn symbols_asked_for_are_loaded(
    loaded: LoadedReferences,
    states: Map<Seq<char>, LoadModel>,
    targets: TargetUniverse,
    symbol: Seq<char>,
)
    requires
        loaded.holds(states, targets),
    ensures
        ({
            let asked = targets matches TargetUniverse::Symbols(symbols) && spec_names(
                symbols@,
                symbol,
            );
            &&& loaded.books@.contains_key(symbol) <==> states.contains_key(symbol) || asked
            &&& asked && !states.contains_key(symbol) ==> {
                let references = loaded.books@[symbol]@;
                &&& references.pre_open is None
                &&& references.market_close is None
                &&& references.continuous_trading.len() == 0
            }
            &&& states.contains_key(symbol) ==> {
                let references = loaded.books@[symbol]@;
                let given = states[symbol].references;
                &&& references.pre_open == given.pre_open
                &&& references.market_close == given.market_close
                &&& references.continuous_trading.len() == given.continuous_trading.len()
                &&& loaded.selection_audit@.contains_key(symbol)
                &&& loaded.selection_audit@[symbol]@ == states[symbol].tracker.audit
                &&& states[symbol].limits is Some <==> loaded.sz_close_limits@.contains_key(symbol)
                &&& states[symbol].limits is Some ==> loaded.sz_close_limits@[symbol]@
                    == states[symbol].limits->0
            }
            &&& !states.contains_key(symbol) ==> {
                &&& !loaded.selection_audit@.contains_key(symbol)
                &&& !loaded.sz_close_limits@.contains_key(symbol)
            }
        }),
{
    let loads = loaded.books@.contains_key(symbol);
    let audits = loaded.selection_audit@.contains_key(symbol);
    let limits = loaded.sz_close_limits@.contains_key(symbol);
    assert(loads <==> states.contains_key(symbol) || is_explicit(targets, symbol));
    assert(audits <==> states.contains_key(symbol));
    assert(limits <==> states.contains_key(symbol) && states[symbol].limits is Some);
}

/// Decimals are stored with their own scale, signed numbers in 64 bits and counts in 32 bits
/// without a sign.
pub proof fn kinds_are_stored_in_one_way(kind: RawKind, stored: ColumnType)
    ensures
        kind.accepts(stored) <==> match kind {
            RawKind::Decimal(scale) => stored matches ColumnType::Decimal { scale: found, .. }
                && found == scale,
            RawKind::Signed => stored == ColumnType::Int64,
            RawKind::Unsigned => stored == ColumnType::UInt32,
        },
{
}

/// A file of references is accepted exactly where each column of its market is there and is
/// stored in its way; each is then read where the first column of its name stands.
pub proof fn reference_columns_are_bound_by_name(
    columns: Seq<ColumnModel>,
    market: Market,
    from: int,
)
    requires
        0 <= from <= reference_column_count(market),
        columns.len() <= usize::MAX,
    ensures
        match bound_places(columns, market, from) {
            Ok(places) => {
                &&& places.len() == reference_column_count(market) - from
                &&& forall|k: int|
                    from <= k < reference_column_count(market) ==> {
                        let place = #[trigger] places[k - from];
                        let (name, kind) = reference_column(market, k);
                        &&& place < columns.len()
                        &&& columns[place as int].name == name
                        &&& kind.accepts(columns[place as int].kind)
                    }
            },
            Err(_) => exists|k: int|
                {
                    &&& from <= k < reference_column_count(market)
                    &&& {
                        let (name, kind) = #[trigger] reference_column(market, k);
                        match column_place(columns, name) {
                            Some(place) => !kind.accepts(columns[place].kind),
                            None => true,
                        }
                    }
                },
        },
    decreases reference_column_count(market) - from,
{
    if from < reference_column_count(market) {
        let (name, kind) = reference_column(market, from);
        columns_are_found_by_their_name(columns, name);
        match bound_place(columns, name, kind) {
            Err(_) => {
                assert(reference_column(market, from) == (name, kind));
            },
            Ok(place) => {
                reference_columns_are_bound_by_name(columns, market, from + 1);
                match bound_places(columns, market, from + 1) {
                    Ok(rest) => {
                        let places = seq![place] + rest;
                        assert forall|k: int| from <= k < reference_column_count(market) implies {
                            let place = #[trigger] places[k - from];
                            let (name, kind) = reference_column(market, k);
                            &&& place < columns.len()
                            &&& columns[place as int].name == name
                            &&& kind.accepts(columns[place as int].kind)
                        } by {
                            if k > from {
                                assert(places[k - from] == rest[k - (from + 1)]);
                            }
                        }
                    },
                    Err(_) => {},
                }
            },
        }
    }
}

/// The limits of a day are read from the columns of the high and of the low limit, in this
/// order, which are decimals of six places.
pub proof fn limits_are_bound_by_name(columns: Seq<ColumnModel>)
    requires
        columns.len() <= usize::MAX,
    ensures
        bound_limits(columns) matches Ok(places) ==> {
            let high = columns[places.0 as int];
            let low = columns[places.1 as int];
            &&& places.0 < columns.len()
            &&& places.1 < columns.len()
            &&& high.name == "HighLimitPrice"@
            &&& low.name == "LowLimitPrice"@
            &&& high.kind matches ColumnType::Decimal { scale, .. } && scale == 6
            &&& low.kind matches ColumnType::Decimal { scale, .. } && scale == 6
        },
        bound_limits(columns) is Err ==> column_place(columns, "HighLimitPrice"@) is None
            || column_place(columns, "LowLimitPrice"@) is None || !RawKind::Decimal(6).accepts(
            columns[column_place(columns, "HighLimitPrice"@)->0].kind,
        ) || !RawKind::Decimal(6).accepts(
            columns[column_place(columns, "LowLimitPrice"@)->0].kind,
        ),
{
    columns_are_found_by_their_name(columns, "HighLimitPrice"@);
    columns_are_found_by_their_name(columns, "LowLimitPrice"@);
}

/// Where everything is retained, the records of a symbol are those of its references in the
/// order of the day, after the records that were there: the one before the open, those of
/// continuous trading, and the one of the close.
pub proof fn records_follow_the_references(
    draft: DraftModel,
    shell: ShellModel,
    references: ReferencesModel,
    retention: Retention,
)
    requires
        retention.retain_matched_records,
        retention.max_detail_records is None,
    ensures
        draft.with_references(shell, references, false, retention) matches Some(next) ==> {
            let opening = if references.pre_open is Some {
                1int
            } else {
                0
            };
            let traded = references.continuous_trading;
            let start = draft.records.len() as int;
            let records = next.records;
            &&& next.coverage == draft.coverage
            &&& next.omitted_matched_records == draft.omitted_matched_records
            &&& next.omitted_failure_records == draft.omitted_failure_records
            &&& records.len() == start + opening + traded.len() + if references.market_close
                is Some {
                1int
            } else {
                0
            }
            &&& records.take(start) == draft.records
            &&& references.pre_open is Some ==> records[start] == shell.case(
                ValidationAnchor::PreOpen,
                references.pre_open->0,
            ).record()
            &&& forall|i: int|
                0 <= i < traded.len() ==> records[start + opening + i] == shell.case(
                    ValidationAnchor::ContinuousTrading,
                    #[trigger] traded[i],
                ).record()
            &&& references.market_close is Some ==> records.last() == shell.case(
                ValidationAnchor::MarketClose,
                references.market_close->0,
            ).record()
        },
        draft.with_references(shell, references, true, retention) matches Some(next) ==> {
            &&& references.pre_open is Some ==> next.records == draft.records.push(
                shell.case(ValidationAnchor::PreOpen, references.pre_open->0).record(),
            )
            &&& references.pre_open is None ==> next == draft
        },
{
    let opened = draft.with_single(
        shell,
        ValidationAnchor::PreOpen,
        references.pre_open,
        retention,
    );
    if opened is Some {
        let traded = references.continuous_trading;
        lemma_continuous_records(opened->0, shell, traded, retention);
        if let Some(after) = opened->0.with_continuous(shell, traded, retention) {
            let before = opened->0.records.len() as int;
            if let Some(next) = draft.with_references(shell, references, false, retention) {
                assert(next.records.take(draft.records.len() as int) =~= draft.records) by {
                    assert forall|i: int| 0 <= i < draft.records.len() implies next.records[i]
                        == draft.records[i] by {
                        assert(after.records.take(before)[i] == opened->0.records[i]);
                    }
                }
                if references.pre_open is Some {
                    assert(after.records.take(before)[before - 1] == opened->0.records[before - 1]);
                }
            }
        }
    }
}

proof fn lemma_continuous_records(
    draft: DraftModel,
    shell: ShellModel,
    references: Seq<ReferenceModel>,
    retention: Retention,
)
    requires
        retention.retain_matched_records,
        retention.max_detail_records is None,
    ensures
        draft.with_continuous(shell, references, retention) matches Some(next) ==> {
            let start = draft.records.len() as int;
            &&& next.coverage == draft.coverage
            &&& next.omitted_matched_records == draft.omitted_matched_records
            &&& next.omitted_failure_records == draft.omitted_failure_records
            &&& next.records.len() == start + references.len()
            &&& next.records.take(start) == draft.records
            &&& forall|i: int|
                0 <= i < references.len() ==> next.records[start + i] == shell.case(
                    ValidationAnchor::ContinuousTrading,
                    #[trigger] references[i],
                ).record()
        },
    decreases references.len(),
{
    let start = draft.records.len() as int;
    if references.len() == 0 {
        assert(draft.records.take(start) =~= draft.records);
    } else {
        let case = shell.case(ValidationAnchor::ContinuousTrading, references[0]);
        if let Some(first) = draft.with_case(case, retention) {
            let rest = references.drop_first();
            lemma_continuous_records(first, shell, rest, retention);
            assert(first.records == draft.records.push(case.record()));
            if let Some(next) = first.with_continuous(shell, rest, retention) {
                assert(next.records.take(start) =~= draft.records) by {
                    assert forall|i: int| 0 <= i < start implies next.records[i]
                        == draft.records[i] by {
                        assert(next.records.take(start + 1)[i] == first.records[i]);
                    }
                }
                assert forall|i: int| 0 <= i < references.len() implies next.records[start + i]
                    == shell.case(
                    ValidationAnchor::ContinuousTrading,
                    #[trigger] references[i],
                ).record() by {
                    if i == 0 {
                        assert(next.records.take(start + 1)[start] == first.records[start]);
                    } else {
                        assert(references[i] == rest[i - 1]);
                        assert(next.records[start + 1 + (i - 1)] == shell.case(
                            ValidationAnchor::ContinuousTrading,
                            rest[i - 1],
                        ).record());
                    }
                }
            }
        }
    }
}

/// A report shows each count of its draft under its own name, its windows in milliseconds, and
/// the records of its draft in their order.
pub proof fn reports_show_each_count_under_its_name(
    report: ValidationReport,
    observer: ObserverModel,
    replay: ReplayReport,
    draft: DraftModel,
)
    requires
        report.reports(observer, replay, draft),
    ensures
        report.selected_references == draft.counts.totals.total,
        report.comparable_references == draft.counts.totals.comparable,
        report.matched == draft.counts.totals.matched,
        report.mismatched == draft.counts.totals.mismatched,
        report.data_errors == draft.counts.totals.data_errors,
        report.missing_source == draft.counts.totals.missing_source,
        report.mismatch_fields@ == draft.counts.mismatch_fields,
        report.mismatch_reasons@ == draft.counts.mismatch_reasons,
        report.failure_reasons@ == draft.counts.failure_reasons,
        report.mismatched_symbols == draft.counts.mismatched_symbols.len(),
        report.match_tags@ == draft.counts.match_tags,
        report.breakdown@ == draft.counts.breakdown,
        report.coverage@ == draft.coverage,
        report.omitted_matched_records == draft.omitted_matched_records,
        report.omitted_failure_records == draft.omitted_failure_records,
        record_views(report.records@) == sorted_records(draft.records),
        report.replay == replay,
        report.report_schema_version == 2,
        observer.continuous_lookback_ns >= 0 ==> report.continuous_lookback_ms
            == observer.continuous_lookback_ns as int / 1_000_000,
        observer.continuous_lookahead_ns >= 0 ==> report.continuous_lookahead_ms
            == observer.continuous_lookahead_ns as int / 1_000_000,
        report.diagnostic_window_override == observer.diagnostic_window_override,
        report.run_outcome == RunOutcome::Failed <==> report.mismatched > 0 || report.data_errors
            > 0 || report.missing_source > 0 || replay.sz_after_close_events > 0,
        report.run_outcome == RunOutcome::NoEligibleReferences <==> report.run_outcome
            != RunOutcome::Failed && report.selected_references == 0,
{
}

/// A run is accepted as standard where it passed, compared something, and kept to the standard
/// windows, to the evidence of the exchange and to the first rules of pending orders.
pub proof fn standard_runs_keep_to_the_rules(report: ValidationReport)
    ensures
        report.standard_acceptance() <==> report.run_outcome == RunOutcome::Passed
            && report.comparable_references >= 1 && !report.diagnostic_window_override
            && report.replay.sz_market_order_policy == SzMarketOrderPolicy::RequireEvidence
            && report.replay.sz_pending_resolution_version == 1,
{
}

/// A symbol of ASCII characters is counted by its first three, a shorter one by all of it.
pub proof fn symbols_are_counted_by_three_characters(symbol: Seq<char>)
    requires
        forall|i: int| 0 <= i < symbol.len() ==> (#[trigger] symbol[i] as u32) < 0x80,
    ensures
        symbol.len() >= 3 ==> symbol_prefix(symbol) == symbol.take(3),
        symbol.len() < 3 ==> symbol_prefix(symbol) == symbol,
{
    if symbol.len() >= 1 {
        lemma_ascii_size(symbol.take(1));
    }
    if symbol.len() >= 2 {
        lemma_ascii_size(symbol.take(2));
    }
    if symbol.len() >= 3 {
        lemma_ascii_size(symbol.take(3));
    }
}

proof fn lemma_ascii_size(text: Seq<char>)
    requires
        forall|i: int| 0 <= i < text.len() ==> (#[trigger] text[i] as u32) < 0x80,
    ensures
        encoded_size(text) == text.len(),
    decreases text.len(),
{
    if text.len() > 0 {
        let front = text.drop_last();
        assert forall|i: int| 0 <= i < front.len() implies (#[trigger] front[i] as u32) < 0x80 by {
            assert(front[i] == text[i]);
        }
        lemma_ascii_size(front);
    }
}

/// How many symbols have a prefix.
pub open spec fn sharing(symbols: Seq<Seq<char>>, prefix: Seq<char>) -> nat
    decreases symbols.len(),
{
    if symbols.len() == 0 {
        0
    } else {
        sharing(symbols.drop_last(), prefix) + if symbol_prefix(symbols.last()) == prefix {
            1nat
        } else {
            0
        }
    }
}

/// The counts of prefixes say of each prefix how many symbols have it, and know no other.
pub proof fn prefixes_count_their_symbols(symbols: Seq<Seq<char>>, prefix: Seq<char>)
    requires
        symbols.len() <= u64::MAX,
    ensures
        sharing(symbols, prefix) <= symbols.len(),
        prefix_counts(symbols).contains_key(prefix) <==> sharing(symbols, prefix) > 0,
        prefix_counts(symbols).contains_key(prefix) ==> prefix_counts(symbols)[prefix] == sharing(
            symbols,
            prefix,
        ),
    decreases symbols.len(),
{
    if symbols.len() > 0 {
        prefixes_count_their_symbols(symbols.drop_last(), prefix);
    }
}

/// How many differences are of a field.
pub open spec fn of_field(differences: Seq<DifferenceModel>, field: Seq<char>) -> nat
    decreases differences.len(),
{
    if differences.len() == 0 {
        0
    } else {
        of_field(differences.drop_first(), field) + if differences[0].field == field {
            1nat
        } else {
            0
        }
    }
}

/// Each difference of a mismatch counts once under its field.
pub proof fn differences_count_under_their_field(
    counts: Map<Seq<char>, u64>,
    differences: Seq<DifferenceModel>,
    field: Seq<char>,
)
    ensures
        bumped_fields(counts, differences) matches Some(next) ==> count_of(next, field) == count_of(
            counts,
            field,
        ) + of_field(differences, field),
    decreases differences.len(),
{
    if differences.len() > 0 {
        if let Some(next) = bumped(counts, differences[0].field) {
            differences_count_under_their_field(next, differences.drop_first(), field);
        }
    }
}

/// The name of a stage in the coverage: the market, the class and the stage itself.
pub open spec fn coverage_name(
    market: Seq<char>,
    class: Seq<char>,
    anchor: ValidationAnchor,
) -> Seq<char> {
    market + "."@ + class + "."@ + match anchor {
        ValidationAnchor::PreOpen => "pre_open"@,
        ValidationAnchor::ContinuousTrading => "continuous_trading"@,
        ValidationAnchor::MarketClose => "market_close"@,
    }
}

/// A symbol counts once in the stages of the coverage of its market and class: in that before
/// the open alone where nothing else is validated, else in all three, each with as many frames
/// as were selected for it. All other stages stay.
pub proof fn symbols_count_in_their_stages(
    coverage: CoverageModel,
    market: Seq<char>,
    class: Seq<char>,
    audit: SelectionModel,
    pre_open_only: bool,
    anchor: ValidationAnchor,
    other: Seq<char>,
)
    requires
        coverage.observed(market, class, audit, pre_open_only) is Some,
        anchor == ValidationAnchor::PreOpen || !pre_open_only,
    ensures
        ({
            let after = coverage.observed(market, class, audit, pre_open_only)->0;
            let name = coverage_name(market, class, anchor);
            let before = if coverage.by_stage.contains_key(name) {
                coverage.by_stage[name]
            } else {
                CoverageCounts { symbols: 0, covered_symbols: 0, selected_references: 0 }
            };
            let selected = count_of(
                audit.selected_counts,
                match anchor {
                    ValidationAnchor::PreOpen => "pre_open"@,
                    ValidationAnchor::ContinuousTrading => "continuous_trading"@,
                    ValidationAnchor::MarketClose => "market_close"@,
                },
            );
            &&& after.by_stage.contains_key(name)
            &&& after.by_stage[name].symbols == before.symbols + 1
            &&& after.by_stage[name].covered_symbols == before.covered_symbols + one(selected > 0)
            &&& after.by_stage[name].selected_references == before.selected_references + selected
            &&& after.symbols == coverage.symbols + 1
            &&& other != coverage_name(market, class, ValidationAnchor::PreOpen) && (pre_open_only
                || other != coverage_name(market, class, ValidationAnchor::ContinuousTrading)
                && other != coverage_name(market, class, ValidationAnchor::MarketClose)) ==> {
                &&& after.by_stage.contains_key(other) <==> coverage.by_stage.contains_key(other)
                &&& after.by_stage[other] == coverage.by_stage[other]
            }
        }),
{
    let front = market + "."@ + class + "."@;
    reveal_strlit("pre_open");
    reveal_strlit("continuous_trading");
    reveal_strlit("market_close");
    let opening = coverage_name(market, class, ValidationAnchor::PreOpen);
    let trading = coverage_name(market, class, ValidationAnchor::ContinuousTrading);
    let closing = coverage_name(market, class, ValidationAnchor::MarketClose);
    assert(opening.len() == front.len() + 8);
    assert(trading.len() == front.len() + 18);
    assert(closing.len() == front.len() + 12);
}

/// The time of a sample is in milliseconds, cut off towards zero.
pub proof fn sample_times_are_cut_off(time_ns: i64)
    ensures
        time_ns >= 0 ==> 0 <= time_ns - whole_millis(time_ns) * 1_000_000 < 1_000_000,
        time_ns < 0 ==> 0 <= whole_millis(time_ns) * 1_000_000 - time_ns < 1_000_000,
{
}

/// The cases of a symbol carry its market, its name, and whether and where it was seen.
pub proof fn cases_carry_their_symbol(
    observer: ObserverModel,
    symbol: Seq<char>,
    after_close: Map<Seq<char>, u64>,
    anchor: ValidationAnchor,
    reference: ReferenceModel,
)
    ensures
        ({
            let case = shell_of(observer, symbol, after_close).case(anchor, reference);
            &&& case.market == observer.market
            &&& case.symbol == symbol
            &&& case.anchor == anchor
            &&& case.reference == reference
            &&& case.after_close == after_close
            &&& observer.symbols.contains_key(symbol) ==> {
                &&& case.seen == observer.symbols[symbol].seen
                &&& case.channel == observer.symbols[symbol].channel
            }
            &&& !observer.symbols.contains_key(symbol) ==> !case.seen && case.channel is None
        }),
{
}

/// The audit of a symbol is the one that was taken, and an empty one where none was.
pub proof fn audits_belong_to_their_symbol(observer: ObserverModel, symbol: Seq<char>)
    ensures
        observer.selection_audit.contains_key(symbol) ==> audit_of(observer, symbol)
            == observer.selection_audit[symbol],
        !observer.selection_audit.contains_key(symbol) ==> audit_of(observer, symbol).symbol
            == symbol && audit_of(observer, symbol).reference_records == 0,
{
}

/// Rows tell limits that matter in Shenzhen, of shares, and over a whole day only. The first
/// ones are noted with the row that they come from. The rounded mark of a day without limits
/// stands for the mark itself where reception times are missing, and is an error elsewhere.
pub proof fn rows_tell_limits(
    loader: LoaderModel,
    columns: ColumnsModel,
    symbol: Seq<char>,
    row: RawReferenceModel,
)
    ensures
        ({
            let matters = loader.market == Market::Szse && !spec_is_etf(Market::Szse, symbol)
                && !loader.pre_open_only;
            let first = loader.limited(columns, symbol, None, row);
            let told = columns.day_limits(row.values);
            let rounded = told == Ok::<(i64, i64), Seq<char>>((10_000_000_000_000, 100));
            let source = loader.path + "#source_row_no="@ + nat_text(row.source_row_no->0 as nat);
            &&& !matters ==> first is None
            &&& matters ==> first is Some
            &&& matters && told is Err ==> first->0.error is Some && first->0.values is None
            &&& matters && rounded && row.missing_reception ==> {
                &&& first->0.values == Some((9_999_999_999_999i64, 100i64))
                &&& first->0.error is None
                &&& first->0.source == source
                &&& first->0.upper_limit_normalization is Some
                &&& first->0.upper_limit_normalization->0.records == 1
                &&& first->0.upper_limit_normalization->0.first_source == source
            }
            &&& matters && rounded && !row.missing_reception ==> first->0.error is Some
            &&& matters && !rounded && (told matches Ok(pair) && limits_are_valid(pair.0, pair.1))
                ==> {
                &&& first->0.values == Some(told->Ok_0)
                &&& first->0.source == source
                &&& first->0.error is None
                &&& first->0.upper_limit_normalization is None
            }
        }),
        !(loader.market == Market::Szse && !spec_is_etf(Market::Szse, symbol)
            && !loader.pre_open_only) ==> forall|limits: Option<LimitsModel>| #[trigger]
            loader.limited(columns, symbol, limits, row) == limits,
{
}

/// A reference holds its time, the number of its row and whether its reception time is missing,
/// what its row shows or why it shows nothing, and nothing of a comparison.
pub proof fn references_hold_their_row(
    loader: LoaderModel,
    columns: ColumnsModel,
    anchor: ValidationAnchor,
    time_ns: i64,
    row: RawReferenceModel,
    batch_row: usize,
)
    requires
        loader.reference(columns, anchor, time_ns, row, batch_row) is Ok,
    ensures
        ({
            let reference = loader.reference(columns, anchor, time_ns, row, batch_row)->Ok_0;
            let decoded = columns.decoded(loader.path, row.values, batch_row);
            &&& reference.time_ns == time_ns
            &&& reference.source_row_no == row.source_row_no->0
            &&& reference.missing_reception == row.missing_reception
            &&& !reference.state.matched && !reference.state.finalized
            &&& reference.state.best_differences is None
            &&& decoded is Ok ==> reference.view == Some(decoded->Ok_0) && reference.load_error
                is None
            &&& decoded is Err ==> reference.view is None && reference.load_error is Some
            &&& anchor != ValidationAnchor::MarketClose || loader.market == Market::Sse
                ==> reference.pre_close_price_units is None
            &&& anchor == ValidationAnchor::MarketClose && loader.market == Market::Szse
                ==> columns.previous_close(row.values, batch_row) == Ok::<Option<i64>, ErrorModel>(
                reference.pre_close_price_units,
            )
        }),
{
}

/// What an observer knows after one thing more is what it knew, shown that thing; it refuses the
/// first thing that it cannot take, and goes by that from then on.
pub proof fn observers_are_shown_one_thing_after_another(
    observer: ObserverModel,
    log: Seq<Observed>,
    observed: Observed,
)
    ensures
        observer.shown_all(Seq::empty()) == observer,
        observer.refusal_all(Seq::empty()) is None,
        observer.shown_all(log.push(observed)) == observer.shown_all(log).shown(observed),
        observer.refusal_all(log) is Some ==> observer.refusal_all(log.push(observed))
            == observer.refusal_all(log),
        observer.refusal_all(log) is None ==> observer.refusal_all(log.push(observed))
            == observer.shown_all(log).refusal(observed),
{
    assert(log.push(observed).drop_last() =~= log);
}

/// A validation ends with the first fault there is: an observer that cannot be set up, a request
/// that cannot be served, something that the observer refuses, a day that fails, a count that
/// overflows. Without one there is a report of what the observer knows at the end of the day.
pub proof fn validations_end_with_the_first_fault(
    start: Result<ObserverModel, ErrorModel>,
    request: MarketDayRequest,
    day: DayModel,
    retain_matched_records: bool,
    r: Result<ValidationReport, ProductionError>,
)
    requires
        validated(start, request, day, retain_matched_records, r),
    ensures
        start is Err ==> r is Err && r->Err_0@ == start->Err_0,
        start matches Ok(observer) ==> {
            let known = observer.shown_all(day.log);
            let draft = final_draft(known, day, retain_matched_records);
            let refusal = observer.refusal_all(day.log);
            &&& r is Ok <==> request.spec_valid() && refusal is None && day.error is None && draft
                is Some
            &&& request.spec_valid() && refusal is Some ==> r is Err && r->Err_0@ == refusal->0
            &&& request.spec_valid() && refusal is None && day.error is Some ==> r is Err
                && r->Err_0@ == day.error->0
            &&& r matches Ok(report) ==> {
                &&& report.selected_references == draft->0.counts.totals.total
                &&& report.matched == draft->0.counts.totals.matched
                &&& report.mismatched == draft->0.counts.totals.mismatched
                &&& report.data_errors == draft->0.counts.totals.data_errors
                &&& report.missing_source == draft->0.counts.totals.missing_source
                &&& report.replay@ == day.report
            }
        },
{
}

/// A draft is made of all symbols that the observer knows, in their order, with the events after
/// the close of the day, and keeps what it is asked to keep.
pub proof fn drafts_are_made_of_all_symbols(
    observer: ObserverModel,
    day: DayModel,
    retain_matched_records: bool,
    symbols: Seq<Seq<char>>,
)
    requires
        ascending(symbols),
        symbols.to_set() == observer.symbols.dom(),
    ensures
        ({
            let retention = Retention {
                retain_matched_records,
                max_detail_records: observer.max_detail_records,
            };
            let after_close = day.report.sz_after_close_events_by_symbol;
            let draft = final_draft(observer, day, retain_matched_records);
            &&& symbols.len() == 0 ==> draft == Some(DraftModel::empty())
            &&& symbols.len() == 1 ==> draft == DraftModel::empty().with_symbol(
                observer,
                symbols[0],
                after_close,
                retention,
            )
            &&& draft == DraftModel::empty().with_symbols(
                observer,
                symbols,
                after_close,
                retention,
            )
        }),
{
    let list = listing(observer.symbols.dom());
    assert(ascending(symbols) && symbols.to_set() == observer.symbols.dom());
    ascending_lists_are_unique(list, symbols);
    reveal_with_fuel(DraftModel::with_symbols, 2);
    if symbols.len() == 1 {
        assert(symbols.drop_first().len() == 0);
    }
}

/// The reason of an outcome tells what is wrong: how many events came after the close, that
/// nothing of the symbol was seen, or that no candidate matched.
pub proof fn outcomes_tell_their_reason(
    after_close: Option<u64>,
    load_error: Option<Seq<char>>,
    seen: bool,
    comparison_error: Option<Seq<char>>,
    matched: bool,
)
    ensures
        ({
            let reason = classified(after_close, load_error, seen, comparison_error, matched).1;
            &&& after_close is Some ==> {
                &&& reason is Some
                &&& begins(
                    reason->0,
                    "unclassified SZ events after 15:00:00.000: "@ + nat_text(
                        after_close->0 as nat,
                    ),
                )
                &&& ends(reason->0, "; phase review required before E0 acceptance"@)
            }
            &&& after_close is None && load_error is None && !seen ==> reason == Some(
                "no selected raw order/trade events were observed"@,
            )
            &&& after_close is None && load_error is None && seen && comparison_error is None
                && !matched ==> reason == Some(
                "no reconstructed full-state candidate matched the reference"@,
            )
        }),
{
    if let Some(count) = after_close {
        lemma_ends_of_texts(
            "unclassified SZ events after 15:00:00.000: "@ + nat_text(count as nat),
            Seq::empty(),
            "; phase review required before E0 acceptance"@,
        );
    }
}

/// A record that comes last goes behind every record that it does not precede, also behind those
/// that it does not follow either: records of one place keep their order.
pub proof fn records_of_one_place_keep_their_order(records: Seq<RecordModel>, record: RecordModel)
    ensures
        ({
            let sorted = sorted_records(records);
            let place = record_place(sorted, record);
            &&& 0 <= place <= sorted.len()
            &&& sorted_records(records.push(record)) == sorted.insert(place, record)
            &&& place > 0 ==> !precedes(record, sorted[place - 1])
            &&& forall|i: int|
                place <= i < sorted.len() ==> precedes(record, #[trigger] sorted[i])
        }),
{
    assert(records.push(record).drop_last() =~= records);
    lemma_record_place(sorted_records(records), record);
}

proof fn lemma_record_place(sorted: Seq<RecordModel>, record: RecordModel)
    ensures
        ({
            let place = record_place(sorted, record);
            &&& 0 <= place <= sorted.len()
            &&& place > 0 ==> !precedes(record, sorted[place - 1])
            &&& forall|i: int|
                place <= i < sorted.len() ==> precedes(record, #[trigger] sorted[i])
        }),
    decreases sorted.len(),
{
    if sorted.len() > 0 && precedes(record, sorted.last()) {
        let front = sorted.drop_last();
        lemma_record_place(front, record);
        assert forall|i: int| record_place(sorted, record) <= i < sorted.len() implies precedes(
            record,
            #[trigger] sorted[i],
        ) by {
            if i < front.len() {
                assert(front[i] == sorted[i]);
            }
        }
    }
}

/// A match notes by which rule its turnover passed, where one did, and the tag of its last price;
/// anything else notes neither.
pub proof fn matches_note_their_rules(
    state: AnchorModel,
    judgment: Judgment,
    quantum: i64,
    meta: Option<MetaModel>,
    time_ns: Option<i64>,
)
    ensures
        ({
            let after = state.judged(judgment, quantum, meta, time_ns);
            let agrees = judgment.mask == DifferenceMask::none();
            &&& agrees && judgment.precision is Some ==> after.turnover_precision
                == judgment.precision
            &&& agrees && judgment.precision is None ==> after.turnover_precision
                == state.turnover_precision
            &&& agrees ==> after.match_tag == judgment.tag
            &&& !agrees ==> after.turnover_precision == state.turnover_precision
                && after.match_tag == state.match_tag
            &&& after.comparison_error == state.comparison_error
        }),
{
    reveal(AnchorModel::judged);
}

/// A reference row is refused where one of its keys is missing; of an instrument that is asked
/// for also where its time cannot be read, or where it is not behind the rows of its instrument
/// that came before, by its time and by its number. Rows of other instruments are passed over,
/// whatever they hold.
pub proof fn wrong_reference_rows_are_refused(
    loader: LoaderModel,
    targets: TargetUniverse,
    columns: ColumnsModel,
    row: RawReferenceModel,
    batch_row: usize,
)
    ensures
        ({
            let after = loader.loaded(targets, columns, row, batch_row);
            let whole = row.symbol is Some && row.time is Some && row.status is Some
                && row.source_row_no is Some;
            let symbol = trimmed(row.symbol->0);
            let asked = spec_is_supported(loader.market, symbol) && targets.spec_contains(
                loader.market,
                symbol,
            );
            let time = clock_result(loader.midnight as int, row.time->0);
            let last = loader.state(symbol).tracker.last_position;
            &&& !whole ==> after is Err && after->Err_0 is Schema
            &&& whole && !asked ==> after is Ok && after->Ok_0 == loader
            &&& whole && asked && time is Err ==> after == Err::<LoaderModel, LoadErrorModel>(
                LoadErrorModel::Content(time->Err_0),
            )
            &&& whole && asked && time is Ok && last is Some && (time->Ok_0 < (last->0).0
                || row.source_row_no->0 <= (last->0).1) ==> after is Err && after->Err_0 is Content
            &&& whole && asked && after is Ok ==> {
                &&& after->Ok_0.states.contains_key(symbol)
                &&& after->Ok_0.states[symbol].tracker.last_position == Some(
                    (time->Ok_0, row.source_row_no->0),
                )
                &&& after->Ok_0.states[symbol].tracker.last_status == Some(trimmed(row.status->0))
            }
        }),
{
}

} // verus!
