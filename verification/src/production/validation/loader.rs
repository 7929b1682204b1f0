//! Selection of reference frames from raw rows, with an audit of its own. No reconstructed book
//! is read here.

use vstd::prelude::*;
use vstd::string::StringExecFns;

use crate::market_data::{Market, Symbol, TradingDay};
use crate::text::{concat, nat_text, trim, trimmed, u64_text};

use super::super::error::{ErrorModel, ProductionError};
use super::super::snapshot::lemma_literal_time;
use super::super::symbol_map::SymbolMap;
use super::super::time::{
    clock_result, has_timestamps, parse_market_timestamp, shanghai_midnight, timestamp_result,
    MarketTimestampParser,
};
use super::super::types::{
    is_etf_symbol, is_supported_symbol, spec_is_etf, spec_is_supported, spec_names,
    MarketDayRequest, TargetUniverse, ValidationAnchor,
};
use super::candidate::{
    limits_view, AnchorModel, AnchorState, ReferenceModel, ReferenceSnapshot,
};
use super::close_range::{text_view, DayLimits, LimitsModel};
use super::columns::{ColumnsModel, RawSnapshotColumns, RawValue};
use super::phases::{PhaseModel, PhaseTracker, SelectionAudit};
use super::reference::{compact_error, ReferenceBookView};
use super::window::{reference_views, ReferencesModel, SymbolReferences};

verus! {

/// A row of a reference file.
pub struct RawReferenceRow {
    pub symbol: Option<String>,
    pub time: Option<String>,
    pub status: Option<String>,
    pub source_row_no: Option<u64>,
    pub missing_reception: bool,
    pub values: Vec<RawValue>,
}

/// A row of a reference file, with texts as sequences of characters.
pub struct RawReferenceModel {
    pub symbol: Option<Seq<char>>,
    pub time: Option<Seq<char>>,
    pub status: Option<Seq<char>>,
    pub source_row_no: Option<u64>,
    pub missing_reception: bool,
    pub values: Seq<RawValue>,
}

impl View for RawReferenceRow {
    type V = RawReferenceModel;

    open spec fn view(&self) -> RawReferenceModel {
        RawReferenceModel {
            symbol: text_view(self.symbol),
            time: text_view(self.time),
            status: text_view(self.status),
            source_row_no: self.source_row_no,
            missing_reception: self.missing_reception,
            values: self.values@,
        }
    }
}

/// Why references cannot be loaded: the file is not what it should be, or its contents are not.
#[derive(Debug, PartialEq, Eq)]
pub enum LoadError {
    Schema(String),
    Content(ProductionError),
}

/// Why references cannot be loaded, with texts as sequences of characters.
pub enum LoadErrorModel {
    Schema(Seq<char>),
    Content(ErrorModel),
}

impl View for LoadError {
    type V = LoadErrorModel;

    open spec fn view(&self) -> LoadErrorModel {
        match self {
            LoadError::Schema(detail) => LoadErrorModel::Schema(detail@),
            LoadError::Content(error) => LoadErrorModel::Content(error@),
        }
    }
}

/// What was loaded of a symbol.
pub struct ReferenceLoadState {
    pub references: SymbolReferences,
    pub tracker: PhaseTracker,
    pub limits: Option<DayLimits>,
}

/// What was loaded of a symbol, with its collections as mathematical ones.
#[verifier::ext_equal]
pub struct LoadModel {
    pub references: ReferencesModel,
    pub tracker: PhaseModel,
    pub limits: Option<LimitsModel>,
}

impl View for ReferenceLoadState {
    type V = LoadModel;

    open spec fn view(&self) -> LoadModel {
        LoadModel {
            references: self.references@,
            tracker: self.tracker@,
            limits: limits_view(self.limits),
        }
    }
}

/// Whether times go up.
pub open spec fn times_ascend(references: Seq<ReferenceModel>) -> bool {
    forall|i: int, j: int|
        0 <= i < j < references.len() ==> (#[trigger] references[i]).time_ns <= (
        #[trigger] references[j]).time_ns
}

impl LoadModel {
    /// References come in the order of time, up to the last row that was seen.
    pub open spec fn ordered(self) -> bool {
        &&& times_ascend(self.references.continuous_trading)
        &&& self.references.continuous_trading.len() > 0 ==> self.tracker.last_position is Some
        &&& forall|i: int|
            0 <= i < self.references.continuous_trading.len() ==> (
            #[trigger] self.references.continuous_trading[i]).time_ns <= (
            self.tracker.last_position->0).0
    }

    /// No more limits were normalized than there were rows.
    pub open spec fn bounded(self) -> bool {
        self.limits matches Some(limits) ==> limits.normalized_records()
            <= self.tracker.audit.reference_records
    }
}

impl ReferenceLoadState {
    pub open spec fn wf(self) -> bool {
        &&& self.tracker.wf()
        &&& self@.ordered()
        &&& self@.bounded()
    }
}

/// Loads the references of a market day, row by row.
pub struct ReferenceLoader {
    pub market: Market,
    pub trading_day: TradingDay,
    pub pre_open_only: bool,
    pub path: String,
    pub parser: MarketTimestampParser,
    pub opening_start: i64,
    pub continuous_start: i64,
    pub states: SymbolMap<ReferenceLoadState>,
}

/// A loader, with its collections as mathematical ones.
#[verifier::ext_equal]
pub struct LoaderModel {
    pub market: Market,
    pub trading_day: TradingDay,
    pub pre_open_only: bool,
    pub path: Seq<char>,
    pub midnight: i64,
    pub opening_start: i64,
    pub continuous_start: i64,
    pub states: Map<Seq<char>, LoadModel>,
}

pub open spec fn load_views(states: Map<Seq<char>, ReferenceLoadState>) -> Map<
    Seq<char>,
    LoadModel,
> {
    states.map_values(|state: ReferenceLoadState| state@)
}

impl View for ReferenceLoader {
    type V = LoaderModel;

    open spec fn view(&self) -> LoaderModel {
        LoaderModel {
            market: self.market,
            trading_day: self.trading_day,
            pre_open_only: self.pre_open_only,
            path: self.path@,
            midnight: self.parser.spec_midnight(),
            opening_start: self.opening_start,
            continuous_start: self.continuous_start,
            states: load_views(self.states@),
        }
    }
}

impl LoaderModel {
    /// What was loaded of a symbol so far.
    pub open spec fn state(self, symbol: Seq<char>) -> LoadModel {
        if self.states.contains_key(symbol) {
            self.states[symbol]
        } else {
            LoadModel {
                references: ReferencesModel::empty(),
                tracker: PhaseModel::fresh(
                    self.market,
                    self.trading_day,
                    symbol,
                    self.pre_open_only,
                ),
                limits: None,
            }
        }
    }

    /// Whether rows of a symbol tell limits that matter.
    pub open spec fn watches_limits(self, symbol: Seq<char>) -> bool {
        !self.pre_open_only && self.market == Market::Szse && !spec_is_etf(self.market, symbol)
    }

    pub open spec fn source(self, source_row_no: u64) -> Seq<char> {
        self.path + "#source_row_no="@ + nat_text(source_row_no as nat)
    }

    /// The limits of a symbol after a row.
    pub open spec fn limited(
        self,
        columns: ColumnsModel,
        symbol: Seq<char>,
        limits: Option<LimitsModel>,
        row: RawReferenceModel,
    ) -> Option<LimitsModel> {
        if self.watches_limits(symbol) {
            Some(
                (match limits {
                    Some(limits) => limits,
                    None => LimitsModel::empty(),
                }).observed_reference(
                    columns.day_limits(row.values),
                    row.missing_reception,
                    self.source(row.source_row_no->0),
                ),
            )
        } else {
            limits
        }
    }

    /// The reference that a selected row gives. What a row cannot show stays with it as an
    /// error of its own.
    pub open spec fn reference(
        self,
        columns: ColumnsModel,
        anchor: ValidationAnchor,
        time_ns: i64,
        row: RawReferenceModel,
        batch_row: usize,
    ) -> Result<ReferenceModel, ErrorModel> {
        let decoded = columns.decoded(self.path, row.values, batch_row);
        let pre_close = if self.market == Market::Szse && anchor == ValidationAnchor::MarketClose {
            columns.previous_close(row.values, batch_row)
        } else {
            Ok(None)
        };
        let shell = ReferenceModel {
            time_ns,
            view: None,
            load_error: None,
            source_row_no: row.source_row_no->0,
            missing_reception: row.missing_reception,
            pre_close_price_units: None,
            state: AnchorModel::fresh(),
        };
        if decoded is Ok && compact_error(decoded->Ok_0) is Some {
            Err(compact_error(decoded->Ok_0)->0)
        } else if decoded is Err && decoded->Err_0 !is Validation {
            Err(decoded->Err_0)
        } else if pre_close is Err {
            Err(pre_close->Err_0)
        } else {
            Ok(
                ReferenceModel {
                    view: match decoded {
                        Ok(view) => Some(view),
                        Err(_) => None,
                    },
                    load_error: match decoded {
                        Ok(_) => None,
                        Err(error) => Some(error->Validation_0),
                    },
                    pre_close_price_units: pre_close->Ok_0,
                    ..shell
                },
            )
        }
    }

    /// The loader after a row, or why it is refused.
    pub open spec fn loaded(
        self,
        targets: TargetUniverse,
        columns: ColumnsModel,
        row: RawReferenceModel,
        batch_row: usize,
    ) -> Result<Self, LoadErrorModel> {
        let symbol = trimmed(row.symbol->0);
        let time = clock_result(self.midnight as int, row.time->0);
        let state = self.state(symbol);
        let status = trimmed(row.status->0);
        let position = (time->Ok_0, row.source_row_no->0);
        let decision = state.tracker.decision(
            self.market,
            position.0,
            status,
            self.opening_start,
            self.continuous_start,
        );
        let seen = LoadModel {
            tracker: state.tracker.observed(
                self.market,
                position,
                status,
                self.opening_start,
                self.continuous_start,
            ),
            limits: self.limited(columns, symbol, state.limits, row),
            ..state
        };
        if row.symbol is None || row.time is None || row.status is None || row.source_row_no
            is None {
            Err(
                LoadErrorModel::Schema(
                    "null snapshot key at batch row "@ + nat_text(batch_row as nat),
                ),
            )
        } else if !spec_is_supported(self.market, symbol) || !targets.spec_contains(
            self.market,
            symbol,
        ) {
            Ok(self)
        } else if time is Err {
            Err(LoadErrorModel::Content(time->Err_0))
        } else if state.tracker.position_error(position) is Some {
            Err(LoadErrorModel::Content(state.tracker.position_error(position)->0))
        } else if decision is Err {
            Ok(LoaderModel { states: self.states.insert(symbol, seen), ..self })
        } else {
            let anchor = decision->Ok_0;
            match self.reference(columns, anchor, position.0, row, batch_row) {
                Err(error) => Err(LoadErrorModel::Content(error)),
                Ok(reference) => Ok(
                    LoaderModel {
                        states: self.states.insert(
                            symbol,
                            LoadModel {
                                references: seen.references.with_reference(anchor, reference),
                                ..seen
                            },
                        ),
                        ..self
                    },
                ),
            }
        }
    }
}

impl ReferencesModel {
    /// The references with one more.
    pub open spec fn with_reference(self, anchor: ValidationAnchor, reference: ReferenceModel) -> Self {
        match anchor {
            ValidationAnchor::PreOpen => ReferencesModel { pre_open: Some(reference), ..self },
            ValidationAnchor::ContinuousTrading => ReferencesModel {
                continuous_trading: self.continuous_trading.push(reference),
                ..self
            },
            ValidationAnchor::MarketClose => ReferencesModel {
                market_close: Some(reference),
                ..self
            },
        }
    }
}

/// Why a loader cannot be set up.
pub open spec fn setup_error(day: TradingDay) -> Option<ErrorModel> {
    if !has_timestamps(day) {
        Some(
            ErrorModel::InvalidRequest(
                "invalid trading day: "@ + nat_text(day.spec_value() as nat),
            ),
        )
    } else if timestamp_result(day, "09:25:00.000"@) is Err {
        Some(timestamp_result(day, "09:25:00.000"@)->Err_0)
    } else if timestamp_result(day, "09:30:00.000"@) is Err {
        Some(timestamp_result(day, "09:30:00.000"@)->Err_0)
    } else {
        None
    }
}

proof fn lemma_load_inserted(
    states: Map<Seq<char>, ReferenceLoadState>,
    symbol: Seq<char>,
    state: ReferenceLoadState,
)
    ensures
        load_views(states.insert(symbol, state)) == load_views(states).insert(symbol, state@),
{
    assert(load_views(states.insert(symbol, state)) =~= load_views(states).insert(symbol, state@));
}

impl SymbolReferences {
    fn take(&mut self, anchor: ValidationAnchor, reference: ReferenceSnapshot)
        ensures
            final(self)@ == old(self)@.with_reference(anchor, reference@),
    {
        let ghost before = self@;
        match anchor {
            ValidationAnchor::PreOpen => {
                self.pre_open = Some(reference);
            },
            ValidationAnchor::ContinuousTrading => {
                self.continuous_trading.push(reference);
            },
            ValidationAnchor::MarketClose => {
                self.market_close = Some(reference);
            },
        }
        assert(self@ =~= before.with_reference(anchor, reference@));
    }
}

impl ReferenceLoader {
    pub open spec fn wf(self) -> bool {
        &&& self.states.wf()
        &&& forall|symbol: Seq<char>| #[trigger]
            self.states@.contains_key(symbol) ==> self.states@[symbol].wf()
    }

    /// A loader of the references of a day, which are in a file of the given path.
    pub fn new(request: &MarketDayRequest, path: &str, pre_open_only: bool) -> (r: Result<
        Self,
        ProductionError,
    >)
        ensures
            match setup_error(request.trading_day) {
                Some(error) => r is Err && r->Err_0@ == error,
                None => {
                    &&& r is Ok
                    &&& r->Ok_0.wf()
                    &&& r->Ok_0@ == (LoaderModel {
                        market: request.market,
                        trading_day: request.trading_day,
                        pre_open_only,
                        path: path@,
                        midnight: shanghai_midnight(request.trading_day) as i64,
                        opening_start: timestamp_result(
                            request.trading_day,
                            "09:25:00.000"@,
                        )->Ok_0,
                        continuous_start: timestamp_result(
                            request.trading_day,
                            "09:30:00.000"@,
                        )->Ok_0,
                        states: Map::empty(),
                    })
                    &&& r->Ok_0.opening_start == (shanghai_midnight(request.trading_day) + (9 * 60
                        + 25) * 60_000) * 1_000_000
                    &&& r->Ok_0.continuous_start == (shanghai_midnight(request.trading_day) + (9
                        * 60 + 30) * 60_000) * 1_000_000
                },
            },
    {
        let parser = match MarketTimestampParser::new(request.trading_day) {
            Ok(parser) => parser,
            Err(error) => return Err(error),
        };
        let opening_start: i64 = match parse_market_timestamp(request.trading_day, "09:25:00.000") {
            Ok(time) => time,
            Err(error) => return Err(error),
        };
        let continuous_start: i64 = match parse_market_timestamp(
            request.trading_day,
            "09:30:00.000",
        ) {
            Ok(time) => time,
            Err(error) => return Err(error),
        };
        let r = ReferenceLoader {
            market: request.market,
            trading_day: request.trading_day,
            pre_open_only,
            path: String::from_str(path),
            parser,
            opening_start,
            continuous_start,
            states: SymbolMap::new(),
        };
        assert(r@.states =~= Map::<Seq<char>, LoadModel>::empty());
        proof {
            let midnight = shanghai_midnight(request.trading_day);
            reveal_strlit("09:25:00.000");
            reveal_strlit("09:30:00.000");
            lemma_literal_time(midnight, "09:25:00.000"@, 33_900_000);
            lemma_literal_time(midnight, "09:30:00.000"@, 34_200_000);
        }
        Ok(r)
    }

    fn reference(
        &self,
        columns: &RawSnapshotColumns,
        anchor: ValidationAnchor,
        time_ns: i64,
        source_row_no: u64,
        row: &RawReferenceRow,
        batch_row: usize,
    ) -> (r: Result<ReferenceSnapshot, ProductionError>)
        requires
            columns.wf(),
            row.source_row_no == Some(source_row_no),
        ensures
            match self@.reference(columns.model(), anchor, time_ns, row@, batch_row) {
                Ok(reference) => r is Ok && r->Ok_0@ == reference,
                Err(error) => r is Err && r->Err_0@ == error,
            },
    {
        let (view, load_error) = match columns.view(self.path.as_str(), &row.values, batch_row) {
            Ok(view) => match ReferenceBookView::try_from_view(&view) {
                Ok(compact) => (Some(compact), None),
                Err(error) => return Err(error),
            },
            Err(error) => match error {
                ProductionError::Validation(detail) => (None, Some(detail)),
                other => return Err(other),
            },
        };
        let pre_close_price_units = if self.market == Market::Szse && anchor
            == ValidationAnchor::MarketClose {
            match columns.pre_close(&row.values, batch_row) {
                Ok(price) => price,
                Err(error) => return Err(error),
            }
        } else {
            None
        };
        Ok(
            ReferenceSnapshot {
                time_ns,
                view,
                load_error,
                source_row_no,
                missing_reception: row.missing_reception,
                pre_close_price_units,
                state: AnchorState::default(),
            },
        )
    }

    /// Loads one row of a batch. A row that is refused ends the load.
    pub fn load(
        &mut self,
        targets: &TargetUniverse,
        columns: &RawSnapshotColumns,
        row: &RawReferenceRow,
        batch_row: usize,
    ) -> (r: Result<(), LoadError>)
        requires
            old(self).wf(),
            columns.wf(),
        ensures
            final(self).wf(),
            match old(self)@.loaded(*targets, columns.model(), row@, batch_row) {
                Ok(next) => r is Ok && final(self)@ == next,
                Err(error) => r is Err && r->Err_0@ == error,
            },
    {
        let (raw_symbol, raw_time, raw_status, source_row_no) = match (
            &row.symbol,
            &row.time,
            &row.status,
            row.source_row_no,
        ) {
            (Some(symbol), Some(time), Some(status), Some(source)) => (symbol, time, status, source),
            _ => return Err(
                LoadError::Schema(
                    concat(
                        "null snapshot key at batch row ",
                        u64_text(batch_row as u64).as_str(),
                    ),
                ),
            ),
        };
        let symbol = trim(raw_symbol.as_str());
        if !is_supported_symbol(self.market, symbol.as_str()) || !targets.contains(
            self.market,
            symbol.as_str(),
        ) {
            return Ok(());
        }
        let time_ns: i64 = match self.parser.parse(raw_time.as_str()) {
            Ok(time) => time,
            Err(error) => return Err(LoadError::Content(error)),
        };
        let status = trim(raw_status.as_str());
        self.load_symbol(
            columns,
            row,
            batch_row,
            symbol.as_str(),
            time_ns,
            status.as_str(),
            source_row_no,
        )
    }

    fn load_symbol(
        &mut self,
        columns: &RawSnapshotColumns,
        row: &RawReferenceRow,
        batch_row: usize,
        symbol: &str,
        time_ns: i64,
        status: &str,
        source_row_no: u64,
    ) -> (r: Result<(), LoadError>)
        requires
            old(self).wf(),
            columns.wf(),
            row.source_row_no == Some(source_row_no),
        ensures
            final(self).wf(),
            ({
                let state = old(self)@.state(symbol@);
                let position = (time_ns, source_row_no);
                let decision = state.tracker.decision(
                    old(self)@.market,
                    time_ns,
                    status@,
                    old(self)@.opening_start,
                    old(self)@.continuous_start,
                );
                let seen = LoadModel {
                    tracker: state.tracker.observed(
                        old(self)@.market,
                        position,
                        status@,
                        old(self)@.opening_start,
                        old(self)@.continuous_start,
                    ),
                    limits: old(self)@.limited(columns.model(), symbol@, state.limits, row@),
                    ..state
                };
                if state.tracker.position_error(position) is Some {
                    r is Err && r->Err_0@ == LoadErrorModel::Content(
                        state.tracker.position_error(position)->0,
                    )
                } else if decision is Err {
                    r is Ok && final(self)@ == (LoaderModel {
                        states: old(self)@.states.insert(symbol@, seen),
                        ..old(self)@
                    })
                } else {
                    match old(self)@.reference(
                        columns.model(),
                        decision->Ok_0,
                        time_ns,
                        row@,
                        batch_row,
                    ) {
                        Err(error) => r is Err && r->Err_0@ == LoadErrorModel::Content(error),
                        Ok(reference) => r is Ok && final(self)@ == (LoaderModel {
                            states: old(self)@.states.insert(
                                symbol@,
                                LoadModel {
                                    references: seen.references.with_reference(
                                        decision->Ok_0,
                                        reference,
                                    ),
                                    ..seen
                                },
                            ),
                            ..old(self)@
                        }),
                    }
                }
            }),
    {
        let ghost start = *self;
        let market = self.market;
        let opening_start: i64 = self.opening_start;
        let continuous_start: i64 = self.continuous_start;
        let watched = !self.pre_open_only && market == Market::Szse && !is_etf_symbol(
            market,
            symbol,
        );
        let path = &self.path;
        if !self.states.contains_key(symbol) {
            let tracker = PhaseTracker::new(market, self.trading_day, symbol).with_pre_open_only(
                self.pre_open_only,
            );
            self.states.insert(
                symbol,
                ReferenceLoadState {
                    references: SymbolReferences::default(),
                    tracker,
                    limits: None,
                },
            );
        }
        let ghost middle = self.states@;
        assert(middle[symbol@]@ == start@.state(symbol@));
        assert forall|other: Seq<char>| #[trigger] middle.contains_key(
            other,
        ) implies middle[other].wf() by {
            if other != symbol@ {
                assert(start.states@.contains_key(other));
            }
        }
        assert forall|state: ReferenceLoadState| load_views(
            #[trigger] middle.insert(symbol@, state),
        ) == load_views(start.states@).insert(symbol@, state@) by {
            assert(middle.insert(symbol@, state) =~= start.states@.insert(symbol@, state));
            lemma_load_inserted(start.states@, symbol@, state);
        }
        let candidate = {
            let state = self.states.get_mut(symbol);
            let outcome = state.tracker.observe(
                market,
                (time_ns, source_row_no),
                status,
                opening_start,
                continuous_start,
            );
            let anchor = match outcome {
                Ok(anchor) => anchor,
                Err(error) => return Err(LoadError::Content(error)),
            };
            if watched {
                let mut limits = match state.limits.take() {
                    Some(limits) => limits,
                    None => DayLimits::default(),
                };
                let source = || -> (r: String)
                    ensures
                        r@ == path@ + "#source_row_no="@ + nat_text(source_row_no as nat),
                    {
                        let mut text = path.clone();
                        text.append("#source_row_no=");
                        text.append(u64_text(source_row_no).as_str());
                        text
                    };
                limits.observe_reference(
                    columns.limits(&row.values),
                    row.missing_reception,
                    source,
                );
                state.limits = Some(limits);
            }
            anchor
        };
        let anchor = match candidate {
            Some(anchor) => anchor,
            None => return Ok(()),
        };
        let reference = match self.reference(
            columns,
            anchor,
            time_ns,
            source_row_no,
            row,
            batch_row,
        ) {
            Ok(reference) => reference,
            Err(error) => return Err(LoadError::Content(error)),
        };
        let state = self.states.get_mut(symbol);
        state.references.take(anchor, reference);
        Ok(())
    }
}

/// Everything that was loaded.
pub struct LoadedReferences {
    pub sz_close_limits: SymbolMap<DayLimits>,
    pub books: SymbolMap<SymbolReferences>,
    pub selection_audit: SymbolMap<SelectionAudit>,
}

/// Whether a reference has the time of one next to it.
pub open spec fn has_twin(references: Seq<ReferenceModel>, i: int) -> bool {
    ||| i > 0 && references[i - 1].time_ns == references[i].time_ns
    ||| i + 1 < references.len() && references[i + 1].time_ns == references[i].time_ns
}

pub open spec fn twin_text(symbol: Seq<char>) -> Seq<char> {
    "duplicate continuous reference timestamp for "@ + symbol
}

/// References with an error on each whose time occurs twice: duplicate periodic times are
/// source errors, not frames to drop silently.
pub open spec fn twins_marked(references: Seq<ReferenceModel>, symbol: Seq<char>) -> Seq<
    ReferenceModel,
> {
    Seq::new(
        references.len(),
        |i: int|
            if has_twin(references, i) {
                ReferenceModel { load_error: Some(twin_text(symbol)), ..references[i] }
            } else {
                references[i]
            },
    )
}

/// In ascending references, those with the time of any other are those with the time of one
/// next to them.
pub proof fn twins_are_neighbours(references: Seq<ReferenceModel>, i: int, j: int)
    requires
        times_ascend(references),
        0 <= i < references.len(),
        0 <= j < references.len(),
        i != j,
        references[i].time_ns == references[j].time_ns,
    ensures
        has_twin(references, i),
{
    if i < j {
        if i + 1 < j {
            assert(references[i].time_ns <= references[i + 1].time_ns);
            assert(references[i + 1].time_ns <= references[j].time_ns);
        }
    } else {
        if j < i - 1 {
            assert(references[j].time_ns <= references[i - 1].time_ns);
        }
        assert(references[i - 1].time_ns <= references[i].time_ns);
    }
}

/// The references of a symbol as they are loaded.
pub open spec fn loaded_references(state: LoadModel, symbol: Seq<char>) -> ReferencesModel {
    ReferencesModel {
        continuous_trading: twins_marked(state.references.continuous_trading, symbol),
        ..state.references
    }
}

fn mark_twins(references: &mut Vec<ReferenceSnapshot>, symbol: &str)
    ensures
        reference_views(final(references)@) == twins_marked(
            reference_views(old(references)@),
            symbol@,
        ),
{
    let ghost start = reference_views(references@);
    let count: usize = references.len();
    let mut at: usize = 0;
    while at < count
        invariant
            start == reference_views(old(references)@),
            count == references@.len(),
            count == start.len(),
            at <= count,
            forall|i: int|
                0 <= i < count ==> (#[trigger] references@[i])@ == if i < at {
                    twins_marked(start, symbol@)[i]
                } else {
                    start[i]
                },
        decreases count - at,
    {
        let time: i64 = references[at].time_ns;
        let before = at > 0 && references[at - 1].time_ns == time;
        let after = at + 1 < count && references[at + 1].time_ns == time;
        proof {
            assert(references@[at as int]@ == start[at as int]);
            if at > 0 {
                assert(references@[at - 1]@ == twins_marked(start, symbol@)[at - 1]);
            }
            if at + 1 < count {
                assert(references@[at + 1]@ == start[at + 1]);
            }
            assert(has_twin(start, at as int) == (before || after));
        }
        if before || after {
            let detail = concat("duplicate continuous reference timestamp for ", symbol);
            let ghost held = references@;
            let reference = &mut references[at];
            reference.load_error = Some(detail);
            assert forall|i: int| 0 <= i < count implies (#[trigger] references@[i])@ == if i < at
                + 1 {
                twins_marked(start, symbol@)[i]
            } else {
                start[i]
            } by {
                if i != at {
                    assert(references@[i] == held[i]);
                }
            }
        }
        at = at + 1;
    }
    proof {
        assert forall|i: int| 0 <= i < count implies reference_views(references@)[i]
            == twins_marked(start, symbol@)[i] by {
            assert(references@[i]@ == twins_marked(start, symbol@)[i]);
        }
    }
    assert(reference_views(references@) =~= twins_marked(start, symbol@));
}

/// Whether a symbol is asked for by name.
pub open spec fn is_explicit(targets: TargetUniverse, symbol: Seq<char>) -> bool {
    targets matches TargetUniverse::Symbols(symbols) && spec_names(symbols@, symbol)
}

impl LoadedReferences {
    pub open spec fn wf(self) -> bool {
        &&& self.sz_close_limits.wf()
        &&& self.books.wf()
        &&& self.selection_audit.wf()
        &&& forall|symbol: Seq<char>| #[trigger]
            self.selection_audit@.contains_key(symbol) ==> self.selection_audit@[symbol].wf()
    }

    /// What was loaded is what the rows gave, and every symbol that is asked for by name has
    /// references, though it may have none of them.
    pub open spec fn holds(
        self,
        states: Map<Seq<char>, LoadModel>,
        targets: TargetUniverse,
    ) -> bool {
        &&& forall|symbol: Seq<char>| #[trigger]
            self.books@.contains_key(symbol) <==> states.contains_key(symbol) || is_explicit(
                targets,
                symbol,
            )
        &&& forall|symbol: Seq<char>| #[trigger]
            self.books@.contains_key(symbol) ==> self.books@[symbol]@ == if states.contains_key(
                symbol,
            ) {
                loaded_references(states[symbol], symbol)
            } else {
                ReferencesModel::empty()
            }
        &&& forall|symbol: Seq<char>| #[trigger]
            self.selection_audit@.contains_key(symbol) <==> states.contains_key(symbol)
        &&& forall|symbol: Seq<char>| #[trigger]
            self.selection_audit@.contains_key(symbol) ==> self.selection_audit@[symbol]@
                == states[symbol].tracker.audit
        &&& forall|symbol: Seq<char>| #[trigger]
            self.sz_close_limits@.contains_key(symbol) <==> states.contains_key(symbol)
                && states[symbol].limits is Some
        &&& forall|symbol: Seq<char>| #[trigger]
            self.sz_close_limits@.contains_key(symbol) ==> Some(
                self.sz_close_limits@[symbol]@,
            ) == states[symbol].limits
    }

    fn add_explicit(&mut self, symbols: &Vec<Symbol>)
        requires
            old(self).wf(),
        ensures
            final(self).wf(),
            final(self).sz_close_limits == old(self).sz_close_limits,
            final(self).selection_audit == old(self).selection_audit,
            forall|symbol: Seq<char>| #[trigger]
                final(self).books@.contains_key(symbol) <==> old(self).books@.contains_key(symbol)
                    || spec_names(symbols@, symbol),
            forall|symbol: Seq<char>| #[trigger]
                final(self).books@.contains_key(symbol) ==> final(self).books@[symbol]@
                    == if old(self).books@.contains_key(symbol) {
                    old(self).books@[symbol]@
                } else {
                    ReferencesModel::empty()
                },
    {
        let mut at: usize = 0;
        while at < symbols.len()
            invariant
                at <= symbols@.len(),
                self.wf(),
                self.sz_close_limits == old(self).sz_close_limits,
                self.selection_audit == old(self).selection_audit,
                forall|symbol: Seq<char>| #[trigger]
                    self.books@.contains_key(symbol) <==> old(self).books@.contains_key(symbol)
                        || spec_names(symbols@.take(at as int), symbol),
                forall|symbol: Seq<char>| #[trigger]
                    self.books@.contains_key(symbol) ==> self.books@[symbol]@ == if old(
                        self,
                    ).books@.contains_key(symbol) {
                        old(self).books@[symbol]@
                    } else {
                        ReferencesModel::empty()
                    },
            decreases symbols@.len() - at,
        {
            let symbol = symbols[at].as_str();
            let ghost before = self.books@;
            if !self.books.contains_key(symbol) {
                self.books.insert(symbol, SymbolReferences::default());
            }
            proof {
                let shorter = symbols@.take(at as int);
                let longer = symbols@.take(at + 1);
                assert forall|other: Seq<char>| #[trigger] self.books@.contains_key(other) <==> old(
                    self,
                ).books@.contains_key(other) || spec_names(longer, other) by {
                    assert(before.contains_key(other) <==> old(self).books@.contains_key(other)
                        || spec_names(shorter, other));
                    if spec_names(shorter, other) {
                        let i = choose|i: int|
                            0 <= i < shorter.len() && (#[trigger] shorter[i])@ == other;
                        assert(longer[i]@ == other);
                    }
                    if other == symbol@ {
                        assert(longer[at as int]@ == other);
                    }
                    if spec_names(longer, other) {
                        let i = choose|i: int|
                            0 <= i < longer.len() && (#[trigger] longer[i])@ == other;
                        if i < at {
                            assert(shorter[i]@ == other);
                        }
                    }
                }
            }
            at = at + 1;
        }
        assert(symbols@.take(at as int) =~= symbols@);
    }
}

impl ReferenceLoader {
    /// Everything that was loaded.
    pub fn finish(self, targets: &TargetUniverse) -> (r: LoadedReferences)
        requires
            self.wf(),
        ensures
            r.wf(),
            r.holds(self@.states, *targets),
    {
        let ghost states = self.states@;
        let ghost names = self.states.symbols();
        proof {
            self.states.lemma_symbols();
        }
        let mut r = LoadedReferences {
            sz_close_limits: SymbolMap::new(),
            books: SymbolMap::new(),
            selection_audit: SymbolMap::new(),
        };
        let mut entries = self.states.into_entries();
        let ghost all = entries@;
        while entries.len() > 0
            invariant
                self.wf(),
                states == self.states@,
                names.len() == all.len(),
                forall|i: int|
                    0 <= i < all.len() ==> (#[trigger] all[i]).0@ == names[i] && all[i].1
                        == states[names[i]],
                forall|i: int|
                    0 <= i < names.len() ==> states.contains_key(#[trigger] names[i]),
                forall|i: int, j: int|
                    0 <= i < j < names.len() ==> #[trigger] names[i] != #[trigger] names[j],
                entries@.len() <= all.len(),
                entries@ == all.take(entries@.len() as int),
                r.wf(),
                forall|symbol: Seq<char>| #[trigger]
                    r.books@.contains_key(symbol) <==> named_from(
                        names,
                        entries@.len() as int,
                        symbol,
                    ),
                forall|symbol: Seq<char>| #[trigger]
                    r.books@.contains_key(symbol) ==> r.books@[symbol]@ == loaded_references(
                        states[symbol]@,
                        symbol,
                    ),
                forall|symbol: Seq<char>| #[trigger]
                    r.selection_audit@.contains_key(symbol) <==> named_from(
                        names,
                        entries@.len() as int,
                        symbol,
                    ),
                forall|symbol: Seq<char>| #[trigger]
                    r.selection_audit@.contains_key(symbol) ==> r.selection_audit@[symbol]@
                        == states[symbol]@.tracker.audit,
                forall|symbol: Seq<char>| #[trigger]
                    r.sz_close_limits@.contains_key(symbol) <==> named_from(
                        names,
                        entries@.len() as int,
                        symbol,
                    ) && states[symbol]@.limits is Some,
                forall|symbol: Seq<char>| #[trigger]
                    r.sz_close_limits@.contains_key(symbol) ==> Some(
                        r.sz_close_limits@[symbol]@,
                    ) == states[symbol]@.limits,
            decreases entries@.len(),
        {
            let ghost last = entries@.len() - 1;
            assert(all[last].0@ == names[last]);
            if let Some((symbol, state)) = entries.pop() {
                assert(symbol@ == names[last] && state == states[names[last]]);
                assert(entries@ =~= all.take(last));
                proof {
                    lemma_named_from(names, last);
                }
                let mut references = state.references;
                mark_twins(&mut references.continuous_trading, symbol.as_str());
                assert(references@ =~= loaded_references(state@, symbol@));
                if let Some(limits) = state.limits {
                    r.sz_close_limits.insert(symbol.as_str(), limits);
                }
                assert(self.states@.contains_key(names[last]));
                r.selection_audit.insert(symbol.as_str(), state.tracker.audit);
                r.books.insert(symbol.as_str(), references);
            }
        }
        proof {
            assert forall|symbol: Seq<char>| named_from(names, 0, symbol)
                == self@.states.contains_key(symbol) by {
                if self.states@.contains_key(symbol) {
                    let i = choose|i: int| 0 <= i < names.len() && names[i] == symbol;
                    assert(names[i] == symbol);
                }
                if named_from(names, 0, symbol) {
                    let i = choose|i: int| 0 <= i < names.len() && #[trigger] names[i] == symbol;
                    assert(states.contains_key(names[i]));
                }
            }
        }
        if let TargetUniverse::Symbols(symbols) = targets {
            r.add_explicit(symbols);
        }
        r
    }
}

/// Whether a symbol is among names from a place on.
pub open spec fn named_from(names: Seq<Seq<char>>, place: int, symbol: Seq<char>) -> bool {
    exists|i: int| place <= i < names.len() && 0 <= i && #[trigger] names[i] == symbol
}

proof fn lemma_named_from(names: Seq<Seq<char>>, place: int)
    requires
        0 <= place < names.len(),
        forall|i: int, j: int|
            0 <= i < j < names.len() ==> #[trigger] names[i] != #[trigger] names[j],
    ensures
        !named_from(names, place + 1, names[place]),
        forall|symbol: Seq<char>| #[trigger]
            named_from(names, place, symbol) <==> named_from(names, place + 1, symbol) || symbol
                == names[place],
{
    assert forall|symbol: Seq<char>| #[trigger]
        named_from(names, place, symbol) <==> named_from(names, place + 1, symbol) || symbol
            == names[place] by {
        if named_from(names, place + 1, symbol) {
            let i = choose|i: int|
                place + 1 <= i < names.len() && 0 <= i && #[trigger] names[i] == symbol;
            assert(names[i] == symbol);
        }
        if symbol == names[place] {
            assert(names[place] == symbol);
        }
    }
    if named_from(names, place + 1, names[place]) {
        let i = choose|i: int|
            place + 1 <= i < names.len() && 0 <= i && #[trigger] names[i] == names[place];
        assert(names[place] != names[i]);
    }
}

} // verus!
