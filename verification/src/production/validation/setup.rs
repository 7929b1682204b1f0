//! Observers for a whole day and for the open alone.

use vstd::prelude::*;

use crate::market_data::TradingDay;

use super::super::error::{ErrorModel, ProductionError};
use super::super::replay::{Observed, StateObserver};
use super::super::snapshot::lemma_literal_time;
use super::super::symbol_map::{string_views, SymbolMap};
use super::super::time::{parse_market_timestamp, shanghai_midnight, timestamp_result};
use super::super::types::ValidationConfig;
use super::close_range::DayLimits;
use super::loader::LoadedReferences;
use super::observer::{audit_views, references_views, ObserverModel, ValidationObserver};
use super::rules::REFERENCE_SECOND_NS;
use super::window::{ReferencesModel, SymbolReferences};

verus! {

/// An observer as it is configured, or why it cannot be.
pub open spec fn configured(base: ObserverModel, config: ValidationConfig) -> Result<
    ObserverModel,
    ErrorModel,
> {
    match base.with_lookback(config.continuous_lookback) {
        Err(error) => Err(error),
        Ok(model) => match model.with_lookahead(config.continuous_lookahead) {
            Err(error) => Err(error),
            Ok(model) => Ok(
                ObserverModel { max_detail_records: config.max_detail_records, ..model },
            ),
        },
    }
}

fn configure(observer: ValidationObserver, config: &ValidationConfig) -> (r: Result<
    ValidationObserver,
    ProductionError,
>)
    requires
        observer.wf(),
    ensures
        match configured(observer@, *config) {
            Ok(model) => r is Ok && r->Ok_0.wf() && r->Ok_0@ == model,
            Err(error) => r is Err && r->Err_0@ == error,
        },
{
    let observer = match observer.with_continuous_lookback(config.continuous_lookback) {
        Ok(observer) => observer,
        Err(error) => return Err(error),
    };
    match observer.with_continuous_lookahead(config.continuous_lookahead) {
        Ok(observer) => Ok(observer.with_max_detail_records(config.max_detail_records)),
        Err(error) => Err(error),
    }
}

/// An observer that starts out with what it knows.
fn started(observer: ValidationObserver) -> (r: ValidationObserver)
    requires
        observer.wf(),
    ensures
        r.ready(),
        r@ == observer@,
        r.origin() == r@,
        r.log() == Seq::<Observed>::empty(),
        r.refusal() is None,
{
    let mut observer = observer;
    observer.origin = Ghost(observer@);
    observer.shown = Ghost(Seq::empty());
    observer.stopped = Ghost(None);
    observer
}

/// The observer of a whole day.
pub open spec fn full_day_model(config: ValidationConfig, references: LoadedReferences) -> Result<
    ObserverModel,
    ErrorModel,
> {
    match configured(
        ObserverModel::fresh(config.request.market, references_views(references.books@), false),
        config,
    ) {
        Ok(model) => Ok(
            (ObserverModel {
                selection_audit: audit_views(references.selection_audit@),
                ..model
            }).with_limits(references.sz_close_limits@.map_values(|limits: DayLimits| limits@)),
        ),
        Err(error) => Err(error),
    }
}

/// The observer of the open alone.
pub open spec fn pre_open_model(config: ValidationConfig, references: LoadedReferences) -> Result<
    ObserverModel,
    ErrorModel,
> {
    match configured(
        ObserverModel::fresh(config.request.market, references_views(references.books@), true),
        config,
    ) {
        Ok(model) => Ok(
            ObserverModel { selection_audit: audit_views(references.selection_audit@), ..model },
        ),
        Err(error) => Err(error),
    }
}

/// Whether an outcome is an observer as it is modelled, to which nothing was shown yet.
pub open spec fn starts_as(
    model: Result<ObserverModel, ErrorModel>,
    r: Result<ValidationObserver, ProductionError>,
) -> bool {
    match model {
        Ok(model) => {
            &&& r is Ok
            &&& r->Ok_0.ready()
            &&& r->Ok_0@ == model
            &&& r->Ok_0.origin() == model
            &&& r->Ok_0.log() == Seq::<Observed>::empty()
            &&& r->Ok_0.refusal() is None
        },
        Err(error) => r is Err && r->Err_0@ == error,
    }
}

/// The observer of a whole day.
pub fn full_day_observer(config: &ValidationConfig, references: LoadedReferences) -> (r: Result<
    ValidationObserver,
    ProductionError,
>)
    requires
        references.wf(),
    ensures
        starts_as(full_day_model(*config, references), r),
{
    let base = ValidationObserver::new(config.request.market, references.books);
    let mut observer = match configure(base, config) {
        Ok(observer) => observer,
        Err(error) => return Err(error),
    };
    observer.selection_audit = references.selection_audit;
    observer.set_close_limits(references.sz_close_limits);
    Ok(started(observer))
}

/// The observer of the open alone.
pub fn pre_open_observer(config: &ValidationConfig, references: LoadedReferences) -> (r: Result<
    ValidationObserver,
    ProductionError,
>)
    requires
        references.wf(),
    ensures
        starts_as(pre_open_model(*config, references), r),
{
    let base = ValidationObserver::pre_open_only(config.request.market, references.books);
    let mut observer = match configure(base, config) {
        Ok(observer) => observer,
        Err(error) => return Err(error),
    };
    observer.selection_audit = references.selection_audit;
    Ok(started(observer))
}

/// The end of the window of a symbol's reference before the open.
pub open spec fn opening_end(references: ReferencesModel) -> Option<int> {
    match references.pre_open {
        Some(reference) => Some(reference.time_ns + REFERENCE_SECOND_NS),
        None => None,
    }
}

/// Whether some symbol's window ends beyond all times.
pub open spec fn some_end_overflows(books: Map<Seq<char>, ReferencesModel>) -> bool {
    exists|symbol: Seq<char>| #[trigger]
        books.contains_key(symbol) && (opening_end(books[symbol]) matches Some(end) && end
            > i64::MAX)
}

/// Whether a time is the last end of a window before the open.
pub open spec fn is_last_end(books: Map<Seq<char>, ReferencesModel>, cutoff: int) -> bool {
    &&& exists|symbol: Seq<char>| #[trigger]
        books.contains_key(symbol) && opening_end(books[symbol]) == Some(cutoff)
    &&& forall|symbol: Seq<char>| #[trigger]
        books.contains_key(symbol) ==> (opening_end(books[symbol]) matches Some(end) ==> end
            <= cutoff)
}

/// Whether no symbol has a reference before the open.
pub open spec fn nothing_opens(books: Map<Seq<char>, ReferencesModel>) -> bool {
    forall|symbol: Seq<char>| #[trigger]
        books.contains_key(symbol) ==> books[symbol].pre_open is None
}

/// When a replay of the open stops: at the end of the last window, or at half past nine where
/// there is none.
pub open spec fn opening_limit(
    books: Map<Seq<char>, ReferencesModel>,
    trading_day: TradingDay,
) -> Result<int, ErrorModel> {
    let fallback = timestamp_result(trading_day, "09:30:00.000"@);
    if some_end_overflows(books) {
        Err(ErrorModel::Arithmetic("opening cutoff"@))
    } else if fallback is Err {
        Err(fallback->Err_0)
    } else if nothing_opens(books) {
        Ok(fallback->Ok_0 as int)
    } else {
        Ok(choose|cutoff: int| is_last_end(books, cutoff))
    }
}

/// When a replay of the open can stop.
pub fn opening_cutoff(books: &SymbolMap<SymbolReferences>, trading_day: TradingDay) -> (r: Result<
    i64,
    ProductionError,
>)
    requires
        books.wf(),
    ensures
        match opening_limit(references_views(books@), trading_day) {
            Ok(cutoff) => r is Ok && r->Ok_0 == cutoff,
            Err(error) => r is Err && r->Err_0@ == error,
        },
        opening_limit(references_views(books@), trading_day) is Ok && !nothing_opens(
            references_views(books@),
        ) ==> is_last_end(references_views(books@), r->Ok_0 as int),
        r is Ok ==> {
            let models = references_views(books@);
            let opens = exists|symbol: Seq<char>| #[trigger]
                models.contains_key(symbol) && models[symbol].pre_open is Some;
            &&& opens ==> exists|symbol: Seq<char>| #[trigger]
                models.contains_key(symbol) && models[symbol].pre_open is Some && r->Ok_0
                    == models[symbol].pre_open->0.time_ns + 1_000_000_000
            &&& forall|symbol: Seq<char>| #[trigger]
                models.contains_key(symbol) && models[symbol].pre_open is Some
                    ==> models[symbol].pre_open->0.time_ns + 1_000_000_000 <= r->Ok_0
            &&& !opens ==> r->Ok_0 == (shanghai_midnight(trading_day) + (9 * 60 + 30) * 60_000)
                * 1_000_000
        },
{
    let symbols = books.sorted_symbols();
    let ghost names = string_views(symbols@);
    let ghost models = references_views(books@);
    let mut last: Option<i64> = None;
    let mut at: usize = 0;
    while at < symbols.len()
        invariant
            books.wf(),
            names == string_views(symbols@),
            models == references_views(books@),
            names.to_set() == books@.dom(),
            at <= symbols@.len(),
            match last {
                None => forall|i: int|
                    0 <= i < at ==> models[#[trigger] names[i]].pre_open is None,
                Some(end) => {
                    &&& exists|i: int|
                        0 <= i < at && opening_end(models[#[trigger] names[i]]) == Some(end as int)
                    &&& forall|i: int|
                        0 <= i < at ==> (opening_end(models[#[trigger] names[i]]) matches Some(e)
                            ==> e <= end)
                },
            },
        decreases symbols@.len() - at,
    {
        proof {
            assert(names[at as int] == symbols@[at as int]@);
            assert(names.to_set().contains(names[at as int]));
        }
        let ghost before = last;
        if let Some(references) = books.get(symbols[at].as_str()) {
            assert(models[names[at as int]] == references@);
            if let Some(reference) = &references.pre_open {
                let end: i64 = match reference.time_ns.checked_add(REFERENCE_SECOND_NS) {
                    Some(end) => end,
                    None => {
                        assert(models.contains_key(names[at as int]));
                        return Err(ProductionError::Arithmetic("opening cutoff"));
                    },
                };
                last = match last {
                    Some(known) => if known >= end {
                        Some(known)
                    } else {
                        Some(end)
                    },
                    None => Some(end),
                };
                assert(opening_end(models[names[at as int]]) == Some(end as int));
                proof {
                    if before is Some && before == last {
                        let i = choose|i: int|
                            0 <= i < at && opening_end(models[#[trigger] names[i]]) == Some(
                                before->0 as int,
                            );
                        assert(opening_end(models[names[i]]) == Some(last->0 as int));
                    }
                }
            } else {
                proof {
                    assert(opening_end(models[names[at as int]]) is None);
                    if before is Some {
                        let i = choose|i: int|
                            0 <= i < at && opening_end(models[#[trigger] names[i]]) == Some(
                                before->0 as int,
                            );
                        assert(opening_end(models[names[i]]) == Some(last->0 as int));
                    }
                }
            }
        }
        at = at + 1;
    }
    proof {
        assert forall|symbol: Seq<char>| #[trigger] models.contains_key(symbol) implies exists|
            i: int,
        | 0 <= i < names.len() && #[trigger] names[i] == symbol by {
            assert(names.to_set().contains(symbol));
            let i = choose|i: int| 0 <= i < names.len() && names[i] == symbol;
            assert(names[i] == symbol);
        }
        if last is Some {
            let i = choose|i: int|
                0 <= i < names.len() && opening_end(models[#[trigger] names[i]]) == Some(
                    last->0 as int,
                );
            assert(names.to_set().contains(names[i]));
            assert(models.contains_key(names[i]));
            assert(is_last_end(models, last->0 as int));
            let cutoff = choose|cutoff: int| is_last_end(models, cutoff);
            let symbol = choose|symbol: Seq<char>| #[trigger]
                models.contains_key(symbol) && opening_end(models[symbol]) == Some(cutoff);
            assert(models.contains_key(symbol));
            assert(cutoff == last->0);
        }
    }
    let fallback: i64 = match parse_market_timestamp(trading_day, "09:30:00.000") {
        Ok(time) => time,
        Err(error) => return Err(error),
    };
    proof {
        reveal_strlit("09:30:00.000");
        lemma_literal_time(shanghai_midnight(trading_day), "09:30:00.000"@, 34_200_000);
        if last is Some {
            assert(is_last_end(models, last->0 as int));
            let symbol = choose|symbol: Seq<char>| #[trigger]
                models.contains_key(symbol) && opening_end(models[symbol]) == Some(last->0 as int);
            assert(models[symbol].pre_open is Some);
        } else {
            assert(nothing_opens(models));
        }
    }
    Ok(
        match last {
            Some(end) => end,
            None => fallback,
        },
    )
}

} // verus!
