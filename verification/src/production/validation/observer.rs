//! The observer that compares replayed books with the references of a market day. Books are
//! read-only here.

use vstd::prelude::*;
use vstd::string::StringExecFns;

use crate::market_data::Market;
use crate::order_book::{BookModel, OrderBook};

use super::super::duration::Duration;
use super::super::error::{ErrorModel, ProductionError};
use super::super::replay::{
    extends, ObservationPoint, Observed, StateObserver, LAST_QUOTE_TIME_NS,
};
use super::super::symbol_map::SymbolMap;
use super::super::types::ValidationAnchor;
use super::candidate::{AnchorState, CandidateContext, ContextModel};
use super::close_range::{DayLimits, LimitsModel};
use super::phases::{SelectionAudit, SelectionModel};
use super::rules::{SymbolValidationRules, REFERENCE_MILLISECOND_NS, REFERENCE_SECOND_NS};
use super::sz_close_price::{SzClosePriceTracker, TrackerModel, TradeSample};
use super::window::{
    outcome_is, ReferencesModel, SymbolModel, SymbolReferences, SymbolStep, SymbolValidationState,
    WindowConfig,
};

verus! {

/// Compares the states of a replay with references.
pub struct ValidationObserver {
    pub market: Market,
    pub symbols: SymbolMap<SymbolValidationState>,
    pub pre_open_only: bool,
    pub continuous_lookback_ns: i64,
    pub continuous_lookahead_ns: i64,
    pub lookahead_override: bool,
    pub diagnostic_window_override: bool,
    pub selection_audit: SymbolMap<SelectionAudit>,
    pub max_detail_records: Option<usize>,
    pub origin: Ghost<ObserverModel>,
    pub shown: Ghost<Seq<Observed>>,
    pub stopped: Ghost<Option<ErrorModel>>,
}

/// Symbols with their models.
pub open spec fn symbol_views(symbols: Map<Seq<char>, SymbolValidationState>) -> Map<
    Seq<char>,
    SymbolModel,
> {
    symbols.map_values(|state: SymbolValidationState| state@)
}

pub open spec fn audit_views(audits: Map<Seq<char>, SelectionAudit>) -> Map<
    Seq<char>,
    SelectionModel,
> {
    audits.map_values(|audit: SelectionAudit| audit@)
}

pub open spec fn references_views(references: Map<Seq<char>, SymbolReferences>) -> Map<
    Seq<char>,
    ReferencesModel,
> {
    references.map_values(|references: SymbolReferences| references@)
}

/// An observer, with its collections as mathematical ones.
#[verifier::ext_equal]
pub struct ObserverModel {
    pub market: Market,
    pub symbols: Map<Seq<char>, SymbolModel>,
    pub pre_open_only: bool,
    pub continuous_lookback_ns: i64,
    pub continuous_lookahead_ns: i64,
    pub lookahead_override: bool,
    pub diagnostic_window_override: bool,
    pub selection_audit: Map<Seq<char>, SelectionModel>,
    pub max_detail_records: Option<usize>,
}

impl View for ValidationObserver {
    type V = ObserverModel;

    open spec fn view(&self) -> ObserverModel {
        ObserverModel {
            market: self.market,
            symbols: symbol_views(self.symbols@),
            pre_open_only: self.pre_open_only,
            continuous_lookback_ns: self.continuous_lookback_ns,
            continuous_lookahead_ns: self.continuous_lookahead_ns,
            lookahead_override: self.lookahead_override,
            diagnostic_window_override: self.diagnostic_window_override,
            selection_audit: audit_views(self.selection_audit@),
            max_detail_records: self.max_detail_records,
        }
    }
}

impl ObserverModel {
    /// An observer of references that has seen nothing. Shanghai looks back a second.
    pub open spec fn fresh(
        market: Market,
        references: Map<Seq<char>, ReferencesModel>,
        pre_open_only: bool,
    ) -> Self {
        ObserverModel {
            market,
            symbols: references.map_values(
                |references: ReferencesModel| SymbolModel::of(references),
            ),
            pre_open_only,
            continuous_lookback_ns: if market == Market::Sse {
                REFERENCE_SECOND_NS
            } else {
                0
            },
            continuous_lookahead_ns: REFERENCE_SECOND_NS,
            lookahead_override: false,
            diagnostic_window_override: false,
            selection_audit: Map::empty(),
            max_detail_records: None,
        }
    }

    /// What is known of a symbol.
    pub open spec fn symbol(self, symbol: Seq<char>) -> SymbolModel {
        if self.symbols.contains_key(symbol) {
            self.symbols[symbol]
        } else {
            SymbolModel::fresh()
        }
    }

    pub open spec fn with_symbol(self, symbol: Seq<char>, state: SymbolModel) -> Self {
        ObserverModel { symbols: self.symbols.insert(symbol, state), ..self }
    }

    /// The rules of a symbol under the configuration.
    pub open spec fn rules(self, symbol: Seq<char>) -> SymbolValidationRules {
        SymbolValidationRules::of(
            self.market,
            symbol,
            self.continuous_lookahead_ns,
            self.lookahead_override,
        )
    }

    /// The symbol as a state is observed: its rules are fixed at the first observation.
    pub open spec fn entered(self, channel: u32, symbol: Seq<char>) -> SymbolModel {
        let state = self.symbol(symbol);
        SymbolModel {
            rules: Some(
                match state.rules {
                    Some(rules) => rules,
                    None => self.rules(symbol),
                },
            ),
            seen: true,
            channel: Some(channel),
            ..state
        }
    }

    /// What an observation leaves of its symbol.
    pub open spec fn step(
        self,
        channel: u32,
        symbol: Seq<char>,
        book: BookModel,
        point: ObservationPoint,
    ) -> SymbolStep {
        let state = self.entered(channel, symbol);
        state.observed(
            ContextModel {
                market: self.market,
                rules: state.rules->0,
                symbol,
                book,
                limits: None,
                close_price: None,
            },
            point,
            WindowConfig {
                pre_open_only: self.pre_open_only,
                lookback_ns: self.continuous_lookback_ns,
                lookahead_ns: state.rules->0.lookahead_ns,
            },
        )
    }

    /// Whether trades matter: they make the closing prices of Shenzhen.
    pub open spec fn watches_trades(self) -> bool {
        self.market == Market::Szse && !self.pre_open_only
    }

    pub open spec fn tracker(self, symbol: Seq<char>) -> TrackerModel {
        match self.symbol(symbol).close_price {
            Some(tracker) => tracker,
            None => TrackerModel::empty(),
        }
    }

    /// Why a trade cannot be taken.
    pub open spec fn trade_error(self, symbol: Seq<char>, sample: TradeSample) -> Option<
        ErrorModel,
    > {
        if self.watches_trades() {
            self.tracker(symbol).observe_error(sample)
        } else {
            None
        }
    }

    /// The observer after a trade.
    pub open spec fn traded(
        self,
        symbol: Seq<char>,
        sequence: Option<u64>,
        sample: TradeSample,
    ) -> Self {
        if !self.watches_trades() {
            self
        } else {
            let tracker = self.tracker(symbol);
            self.with_symbol(
                symbol,
                SymbolModel {
                    close_price: Some(
                        if tracker.observe_error(sample) is Some {
                            tracker.observed(sample)
                        } else {
                            tracker.observed(sample).sequenced(sequence)
                        },
                    ),
                    ..self.symbol(symbol)
                },
            )
        }
    }

    /// The observer after it was shown something.
    pub open spec fn shown(self, observed: Observed) -> Self {
        match observed {
            Observed::State { channel, symbol, book, point } => self.with_symbol(
                symbol,
                self.step(channel, symbol, book, point).state,
            ),
            Observed::Trade {
                channel: _,
                symbol,
                raw_sequence,
                quote_time_ns,
                price_units,
                quantity,
            } => self.traded(
                symbol,
                Some(raw_sequence),
                TradeSample { quote_time_ns, price_units, quantity },
            ),
        }
    }

    /// The observer after it was shown one thing after another.
    pub open spec fn shown_all(self, log: Seq<Observed>) -> Self
        decreases log.len(),
    {
        if log.len() == 0 {
            self
        } else {
            self.shown_all(log.drop_last()).shown(log.last())
        }
    }

    /// Why the observer refuses what it is shown, if it does.
    pub open spec fn refusal(self, observed: Observed) -> Option<ErrorModel> {
        match observed {
            Observed::State { channel, symbol, book, point } => self.step(
                channel,
                symbol,
                book,
                point,
            ).error,
            Observed::Trade {
                channel: _,
                symbol,
                raw_sequence: _,
                quote_time_ns,
                price_units,
                quantity,
            } => self.trade_error(symbol, TradeSample { quote_time_ns, price_units, quantity }),
        }
    }

    /// Why the observer refuses the first thing that it refuses, if there is one.
    pub open spec fn refusal_all(self, log: Seq<Observed>) -> Option<ErrorModel>
        decreases log.len(),
    {
        if log.len() == 0 {
            None
        } else if self.refusal_all(log.drop_last()) is Some {
            self.refusal_all(log.drop_last())
        } else {
            self.shown_all(log.drop_last()).refusal(log.last())
        }
    }

    /// The observer with the limits of symbols.
    pub open spec fn with_limits(self, limits: Map<Seq<char>, LimitsModel>) -> Self {
        ObserverModel {
            symbols: Map::new(
                |symbol: Seq<char>|
                    self.symbols.contains_key(symbol) || limits.contains_key(symbol),
                |symbol: Seq<char>|
                    if limits.contains_key(symbol) {
                        SymbolModel { limits: Some(limits[symbol]), ..self.symbol(symbol) }
                    } else {
                        self.symbol(symbol)
                    },
            ),
            ..self
        }
    }

    /// The observer with a lookback, where one is given.
    pub open spec fn with_lookback(self, lookback: Option<Duration>) -> Result<Self, ErrorModel> {
        match lookback {
            None => Ok(self),
            Some(duration) => if duration.spec_nanos() > i64::MAX {
                Err(ErrorModel::Arithmetic("continuous lookback"@))
            } else if duration.spec_nanos() > REFERENCE_SECOND_NS {
                Err(ErrorModel::InvalidRequest("continuous lookback cannot exceed 1s"@))
            } else {
                Ok(
                    ObserverModel {
                        diagnostic_window_override: true,
                        continuous_lookback_ns: duration.spec_nanos() as i64,
                        ..self
                    },
                )
            },
        }
    }

    /// The observer with symbols whose rules are still to be fixed.
    pub open spec fn without_rules(self) -> Self {
        ObserverModel {
            symbols: self.symbols.map_values(
                |state: SymbolModel| SymbolModel { rules: None, ..state },
            ),
            ..self
        }
    }

    /// The observer with a horizon, where one is given.
    pub open spec fn with_lookahead(self, lookahead: Option<Duration>) -> Result<Self, ErrorModel> {
        match lookahead {
            None => Ok(self.without_rules()),
            Some(duration) => if duration.spec_nanos() > i64::MAX {
                Err(ErrorModel::Arithmetic("continuous lookahead"@))
            } else if duration.spec_nanos() < REFERENCE_MILLISECOND_NS || duration.spec_nanos() > 3
                * REFERENCE_SECOND_NS {
                Err(
                    ErrorModel::InvalidRequest(
                        "continuous lookahead must be within [1ms, 3s]"@,
                    ),
                )
            } else {
                Ok(
                    ObserverModel {
                        lookahead_override: true,
                        diagnostic_window_override: true,
                        continuous_lookahead_ns: duration.spec_nanos() as i64,
                        ..self
                    }.without_rules(),
                )
            },
        }
    }
}

/// The refusal that an answer is.
pub open spec fn refusal_of(r: Result<(), ProductionError>) -> Option<ErrorModel> {
    match r {
        Ok(_) => None,
        Err(error) => Some(error@),
    }
}

/// What an observer refused it has refused whatever else it would be shown.
pub proof fn refusals_are_final(observer: ObserverModel, log: Seq<Observed>, more: Seq<Observed>)
    requires
        extends(more, log),
        observer.refusal_all(log) is Some,
    ensures
        observer.refusal_all(more) == observer.refusal_all(log),
    decreases more.len(),
{
    if more.len() == log.len() {
        assert(more =~= log);
    } else {
        refusals_are_final(observer, log, more.drop_last());
    }
}

/// Puts a value of a symbol through its model.
proof fn lemma_symbol_inserted(
    symbols: Map<Seq<char>, SymbolValidationState>,
    symbol: Seq<char>,
    state: SymbolValidationState,
)
    ensures
        symbol_views(symbols.insert(symbol, state)) == symbol_views(symbols).insert(symbol, state@),
{
    assert(symbol_views(symbols.insert(symbol, state)) =~= symbol_views(symbols).insert(
        symbol,
        state@,
    ));
}

impl ValidationObserver {
    /// Symbols are in order, and windows are no larger than they may be.
    pub open spec fn wf(self) -> bool {
        &&& self.symbols.wf()
        &&& forall|symbol: Seq<char>| #[trigger]
            self.symbols@.contains_key(symbol) ==> self.symbols@[symbol].wf(self.market, symbol)
        &&& self.selection_audit.wf()
        &&& forall|symbol: Seq<char>| #[trigger]
            self.selection_audit@.contains_key(symbol) ==> self.selection_audit@[symbol].wf()
        &&& 0 <= self.continuous_lookback_ns <= REFERENCE_SECOND_NS
        &&& REFERENCE_MILLISECOND_NS <= self.continuous_lookahead_ns <= 3 * REFERENCE_SECOND_NS
    }

    pub fn new(market: Market, references: SymbolMap<SymbolReferences>) -> (r: Self)
        requires
            references.wf(),
        ensures
            r.wf(),
            r@ == ObserverModel::fresh(market, references_views(references@), false),
            r.log() == Seq::<Observed>::empty(),
    {
        let ghost names = references.symbols();
        proof {
            references.lemma_symbols();
        }
        let mut symbols: SymbolMap<SymbolValidationState> = SymbolMap::new();
        let mut entries = references.into_entries();
        let ghost all = entries@;
        while entries.len() > 0
            invariant
                references.wf(),
                names == references.symbols(),
                all.len() == names.len(),
                forall|i: int|
                    0 <= i < all.len() ==> (#[trigger] all[i]).0@ == names[i] && all[i].1
                        == references@[names[i]],
                forall|i: int, j: int|
                    0 <= i < j < names.len() ==> #[trigger] names[i] != #[trigger] names[j],
                entries@.len() <= all.len(),
                entries@ == all.take(entries@.len() as int),
                symbols.wf(),
                forall|symbol: Seq<char>| #[trigger]
                    symbols@.contains_key(symbol) <==> exists|i: int|
                        entries@.len() <= i < names.len() && #[trigger] names[i] == symbol,
                forall|i: int|
                    entries@.len() <= i < names.len() ==> symbols@[#[trigger] names[i]]@
                        == SymbolModel::of(references@[names[i]]@) && forall|market: Market|
                        #[trigger] symbols@[names[i]].wf(market, names[i]),
            decreases entries@.len(),
        {
            let ghost last = entries@.len() - 1;
            let ghost before = symbols@;
            assert(all[last].0@ == names[last]);
            if let Some((symbol, references_of)) = entries.pop() {
                assert(symbol@ == names[last]);
                assert(!symbols@.contains_key(symbol@));
                symbols.insert(symbol.as_str(), SymbolValidationState::new(references_of));
                assert(entries@ =~= all.take(last));
                assert forall|other: Seq<char>| #[trigger]
                    symbols@.contains_key(other) <==> exists|i: int|
                        last <= i < names.len() && #[trigger] names[i] == other by {
                    if symbols@.contains_key(other) && other != symbol@ {
                        assert(before.contains_key(other));
                    }
                    if exists|i: int| last <= i < names.len() && #[trigger] names[i] == other {
                        let i = choose|i: int|
                            last <= i < names.len() && #[trigger] names[i] == other;
                        if i > last {
                            assert(before.contains_key(other));
                        }
                    }
                }
                assert forall|i: int| last <= i < names.len() implies symbols@[#[trigger] names[i]]@
                    == SymbolModel::of(references@[names[i]]@) && forall|market: Market|
                    #[trigger] symbols@[names[i]].wf(market, names[i]) by {
                    if i > last {
                        assert(names[last] != names[i]);
                    }
                }
            }
        }
        let r = ValidationObserver {
            market,
            symbols,
            pre_open_only: false,
            continuous_lookback_ns: if market == Market::Sse {
                REFERENCE_SECOND_NS
            } else {
                0
            },
            continuous_lookahead_ns: REFERENCE_SECOND_NS,
            lookahead_override: false,
            diagnostic_window_override: false,
            selection_audit: SymbolMap::new(),
            max_detail_records: None,
            origin: Ghost(ObserverModel::fresh(market, references_views(references@), false)),
            shown: Ghost(Seq::empty()),
            stopped: Ghost(None),
        };
        proof {
            let target = ObserverModel::fresh(market, references_views(references@), false);
            assert forall|symbol: Seq<char>| r@.symbols.contains_key(symbol)
                == target.symbols.contains_key(symbol) by {
                if references@.contains_key(symbol) {
                    let i = choose|i: int| 0 <= i < names.len() && names[i] == symbol;
                    assert(names[i] == symbol);
                }
                if symbols@.contains_key(symbol) {
                    let i = choose|i: int| 0 <= i < names.len() && #[trigger] names[i] == symbol;
                    assert(references@.contains_key(names[i]));
                }
            }
            assert forall|symbol: Seq<char>| r@.symbols.contains_key(symbol) implies
                r@.symbols[symbol] == target.symbols[symbol] && symbols@[symbol].wf(market, symbol)
                by {
                let i = choose|i: int| 0 <= i < names.len() && #[trigger] names[i] == symbol;
                assert(symbols@[names[i]]@ == SymbolModel::of(references@[names[i]]@));
            }
            assert(r@.symbols =~= target.symbols);
            assert(r@.selection_audit =~= target.selection_audit);
        }
        r
    }

    /// An observer of nothing but the references before the open.
    pub fn pre_open_only(market: Market, references: SymbolMap<SymbolReferences>) -> (r: Self)
        requires
            references.wf(),
        ensures
            r.wf(),
            r@ == ObserverModel::fresh(market, references_views(references@), true),
            r.log() == Seq::<Observed>::empty(),
    {
        let mut r = Self::new(market, references);
        r.pre_open_only = true;
        r
    }

    /// Access to a symbol, of which nothing is known where it is new.
    pub fn symbol_state_mut(&mut self, symbol: &str) -> (r: &mut SymbolValidationState)
        requires
            old(self).wf(),
        ensures
            r@ == old(self)@.symbol(symbol@),
            r.wf(old(self).market, symbol@),
            final(r).wf(old(self).market, symbol@) ==> final(self).wf(),
            final(self)@ == old(self)@.with_symbol(symbol@, final(r)@),
            final(self).log() == old(self).log(),
            final(self).origin() == old(self).origin(),
    {
        let ghost start = *self;
        if !self.symbols.contains_key(symbol) {
            self.symbols.insert(symbol, SymbolValidationState::new(SymbolReferences::default()));
        }
        let ghost middle = self.symbols@;
        assert forall|other: Seq<char>| #[trigger] middle.contains_key(other) implies middle[other].wf(
            self.market,
            other,
        ) by {
            if other != symbol@ {
                assert(start.symbols@.contains_key(other));
            }
        }
        assert forall|state: SymbolValidationState| symbol_views(
            #[trigger] middle.insert(symbol@, state),
        ) == symbol_views(start.symbols@).insert(symbol@, state@) by {
            assert(middle.insert(symbol@, state) =~= start.symbols@.insert(symbol@, state));
            lemma_symbol_inserted(start.symbols@, symbol@, state);
        }
        self.symbols.get_mut(symbol)
    }

    /// Takes the limits of symbols.
    pub fn set_close_limits(&mut self, limits: SymbolMap<DayLimits>)
        requires
            old(self).wf(),
            limits.wf(),
        ensures
            final(self).wf(),
            final(self)@ == old(self)@.with_limits(
                limits@.map_values(|limits: DayLimits| limits@),
            ),
            final(self).log() == old(self).log(),
    {
        let ghost names = limits.symbols();
        let ghost models = limits@.map_values(|limits: DayLimits| limits@);
        let ghost start = self@;
        proof {
            limits.lemma_symbols();
        }
        let mut entries = limits.into_entries();
        let ghost all = entries@;
        while entries.len() > 0
            invariant
                self.wf(),
                self.log() == old(self).log(),
                start == old(self)@,
                names == limits.symbols(),
                models == limits@.map_values(|limits: DayLimits| limits@),
                all.len() == names.len(),
                forall|i: int|
                    0 <= i < all.len() ==> (#[trigger] all[i]).0@ == names[i] && all[i].1
                        == limits@[names[i]],
                forall|i: int|
                    0 <= i < names.len() ==> limits@.contains_key(#[trigger] names[i]),
                forall|i: int, j: int|
                    0 <= i < j < names.len() ==> #[trigger] names[i] != #[trigger] names[j],
                entries@.len() <= all.len(),
                entries@ == all.take(entries@.len() as int),
                self@ == (ObserverModel { symbols: self@.symbols, ..start }),
                forall|symbol: Seq<char>| #[trigger]
                    self@.symbols.contains_key(symbol) <==> start.symbols.contains_key(symbol)
                        || exists|i: int|
                        entries@.len() <= i < names.len() && #[trigger] names[i] == symbol,
                forall|i: int|
                    entries@.len() <= i < names.len() ==> self@.symbols[#[trigger] names[i]] == (
                    SymbolModel { limits: Some(models[names[i]]), ..start.symbol(names[i]) }),
                forall|symbol: Seq<char>| #[trigger]
                    start.symbols.contains_key(symbol) && (forall|i: int|
                        entries@.len() <= i < names.len() ==> #[trigger] names[i] != symbol)
                        ==> self@.symbols[symbol] == start.symbols[symbol],
            decreases entries@.len(),
        {
            let ghost last = entries@.len() - 1;
            let ghost before = self@;
            assert(all[last].0@ == names[last]);
            if let Some((symbol, limits_of)) = entries.pop() {
                assert(symbol@ == names[last]);
                assert(entries@ =~= all.take(last));
                assert(before.symbol(symbol@) == start.symbol(symbol@));
                let state = self.symbol_state_mut(symbol.as_str());
                state.limits = Some(limits_of);
                assert forall|other: Seq<char>| #[trigger]
                    self@.symbols.contains_key(other) <==> start.symbols.contains_key(other)
                        || exists|i: int|
                        last <= i < names.len() && #[trigger] names[i] == other by {
                    if other != symbol@ {
                        assert(before.symbols.contains_key(other) == self@.symbols.contains_key(
                            other,
                        ));
                    }
                    if exists|i: int| last <= i < names.len() && #[trigger] names[i] == other {
                        let i = choose|i: int|
                            last <= i < names.len() && #[trigger] names[i] == other;
                        if i > last {
                            assert(before.symbols.contains_key(other));
                        }
                    }
                }
                assert forall|i: int| last <= i < names.len() implies self@.symbols[
                    #[trigger] names[i]] == (SymbolModel {
                    limits: Some(models[names[i]]),
                    ..start.symbol(names[i])
                }) by {
                    if i > last {
                        assert(names[last] != names[i]);
                    }
                }
            }
        }
        proof {
            let target = start.with_limits(models);
            assert forall|symbol: Seq<char>| self@.symbols.contains_key(symbol)
                == target.symbols.contains_key(symbol) by {
                if limits@.contains_key(symbol) {
                    let i = choose|i: int| 0 <= i < names.len() && names[i] == symbol;
                    assert(names[i] == symbol);
                }
            }
            assert forall|symbol: Seq<char>| self@.symbols.contains_key(symbol) implies
                self@.symbols[symbol] == target.symbols[symbol] by {
                if limits@.contains_key(symbol) {
                    let i = choose|i: int| 0 <= i < names.len() && names[i] == symbol;
                    assert(names[i] == symbol);
                } else {
                    assert forall|i: int| 0 <= i < names.len() implies #[trigger] names[i]
                        != symbol by {
                        assert(limits@.contains_key(names[i]));
                    }
                }
            }
            assert(self@.symbols =~= target.symbols);
        }
    }

    fn observe_trade_inner(
        &mut self,
        symbol: &str,
        sequence: Option<u64>,
        quote_time_ns: i64,
        price_units: i64,
        quantity: u64,
    ) -> (r: Result<(), ProductionError>)
        requires
            old(self).wf(),
            quote_time_ns <= LAST_QUOTE_TIME_NS,
        ensures
            final(self).wf(),
            final(self).log() == old(self).log(),
            final(self).origin() == old(self).origin(),
            ({
                let sample = TradeSample { quote_time_ns, price_units, quantity };
                &&& final(self)@ == old(self)@.traded(symbol@, sequence, sample)
                &&& outcome_is(r, old(self)@.trade_error(symbol@, sample))
            }),
    {
        if self.market != Market::Szse || self.pre_open_only {
            return Ok(());
        }
        let state = self.symbol_state_mut(symbol);
        let mut tracker = match state.close_price.take() {
            Some(tracker) => tracker,
            None => SzClosePriceTracker::new(),
        };
        let outcome = tracker.observe(quote_time_ns, price_units, quantity);
        if outcome.is_ok() {
            tracker.note_sequence(sequence);
        }
        state.close_price = Some(tracker);
        outcome
    }

    /// Takes a trade whose sequence is not known.
    pub fn observe_trade(
        &mut self,
        symbol: &str,
        quote_time_ns: i64,
        price_units: i64,
        quantity: u64,
    ) -> (r: Result<(), ProductionError>)
        requires
            old(self).wf(),
            quote_time_ns <= LAST_QUOTE_TIME_NS,
        ensures
            final(self).wf(),
            final(self).log() == old(self).log(),
            final(self).origin() == old(self).origin(),
            ({
                let sample = TradeSample { quote_time_ns, price_units, quantity };
                &&& final(self)@ == old(self)@.traded(symbol@, None, sample)
                &&& outcome_is(r, old(self)@.trade_error(symbol@, sample))
            }),
    {
        self.observe_trade_inner(symbol, None, quote_time_ns, price_units, quantity)
    }

    /// How the comparison with a reference stands.
    pub fn anchor_state(&self, symbol: &str, anchor: ValidationAnchor, time_ns: i64) -> (r: Option<
        &AnchorState,
    >)
        requires
            self.wf(),
        ensures
            !self@.symbols.contains_key(symbol@) ==> r is None,
            anchor == ValidationAnchor::PreOpen && self@.symbols.contains_key(symbol@) ==> ({
                let reference = self@.symbols[symbol@].references.pre_open;
                if reference is Some && reference->0.time_ns == time_ns {
                    r is Some && r->0@ == reference->0.state
                } else {
                    r is None
                }
            }),
            anchor == ValidationAnchor::MarketClose && self@.symbols.contains_key(symbol@) ==> ({
                let reference = self@.symbols[symbol@].references.market_close;
                if reference is Some && reference->0.time_ns == time_ns {
                    r is Some && r->0@ == reference->0.state
                } else {
                    r is None
                }
            }),
            anchor == ValidationAnchor::ContinuousTrading && self@.symbols.contains_key(symbol@)
                ==> ({
                let list = self@.symbols[symbol@].references.continuous_trading;
                if r is Some {
                    exists|i: int|
                        0 <= i < list.len() && (#[trigger] list[i]).time_ns == time_ns && r->0@
                            == list[i].state
                } else {
                    forall|i: int|
                        0 <= i < list.len() ==> (#[trigger] list[i]).time_ns != time_ns
                }
            }),
    {
        match self.symbols.get(symbol) {
            Some(state) => {
                let ghost list = state@.references.continuous_trading;
                let ghost held = state.references.continuous_trading@;
                match state.references.get(anchor, time_ns) {
                    Some(reference) => {
                        proof {
                            if anchor == ValidationAnchor::ContinuousTrading {
                                let i = choose|i: int|
                                    0 <= i < held.len() && held[i] == *reference;
                                assert(list[i] == held[i]@);
                            }
                        }
                        Some(&reference.state)
                    },
                    None => {
                        proof {
                            if anchor == ValidationAnchor::ContinuousTrading {
                                assert forall|i: int| 0 <= i < list.len() implies (
                                #[trigger] list[i]).time_ns != time_ns by {
                                    assert(list[i] == held[i]@);
                                }
                            }
                        }
                        None
                    },
                }
            },
            None => None,
        }
    }

    /// Takes a lookback before each continuous reference, where one is given.
    pub fn with_continuous_lookback(self, lookback: Option<Duration>) -> (r: Result<
        Self,
        ProductionError,
    >)
        requires
            self.wf(),
        ensures
            match self@.with_lookback(lookback) {
                Ok(model) => r is Ok && r->Ok_0.wf() && r->Ok_0@ == model && r->Ok_0.log()
                    == self.log(),
                Err(error) => r is Err && r->Err_0@ == error,
            },
    {
        let mut observer = self;
        if let Some(duration) = lookback {
            let nanos: u128 = duration.as_nanos();
            if nanos > 0x7fff_ffff_ffff_ffff {
                return Err(ProductionError::Arithmetic("continuous lookback"));
            }
            if nanos > REFERENCE_SECOND_NS as u128 {
                return Err(
                    ProductionError::InvalidRequest(
                        String::from_str("continuous lookback cannot exceed 1s"),
                    ),
                );
            }
            observer.diagnostic_window_override = true;
            observer.continuous_lookback_ns = nanos as i64;
        }
        Ok(observer)
    }

    /// Forgets the rules of all symbols, which follow the configuration.
    fn forget_rules(&mut self)
        requires
            old(self).wf(),
        ensures
            final(self).wf(),
            final(self)@ == old(self)@.without_rules(),
            final(self).log() == old(self).log(),
            final(self).origin() == old(self).origin(),
    {
        let ghost start = *self;
        let ghost names = self.symbols.symbols();
        proof {
            self.symbols.lemma_symbols();
        }
        let count: usize = self.symbols.len();
        let mut at: usize = 0;
        while at < count
            invariant
                start == *old(self),
                start.wf(),
                self.symbols.wf(),
                self.symbols.symbols() == names,
                names == start.symbols.symbols(),
                count == names.len(),
                at <= count,
                *self == (ValidationObserver { symbols: self.symbols, ..start }),
                self.symbols@.dom() == start.symbols@.dom(),
                forall|i: int|
                    0 <= i < names.len() ==> self.symbols@.contains_key(#[trigger] names[i]),
                forall|i: int, j: int|
                    0 <= i < j < names.len() ==> #[trigger] names[i] != #[trigger] names[j],
                forall|i: int|
                    at <= i < names.len() ==> self.symbols@[#[trigger] names[i]]
                        == start.symbols@[names[i]],
                forall|i: int|
                    0 <= i < at ==> self.symbols@[#[trigger] names[i]]@ == (SymbolModel {
                        rules: None,
                        ..start.symbols@[names[i]]@
                    }) && self.symbols@[names[i]].wf(self.market, names[i]),
            decreases count - at,
        {
            let ghost before = self.symbols@;
            assert(start.symbols@.contains_key(names[at as int]));
            assert(start.symbols@[names[at as int]].wf(start.market, names[at as int]));
            let state = self.symbols.value_mut(at);
            state.rules = None;
            assert(self.symbols@.dom() =~= before.dom());
            assert forall|i: int| 0 <= i < names.len() && i != at implies self.symbols@[
                #[trigger] names[i]] == before[names[i]] by {
                if i < at {
                    assert(names[i] != names[at as int]);
                } else {
                    assert(names[at as int] != names[i]);
                }
            }
            at = at + 1;
        }
        proof {
            let target = start@.without_rules();
            assert forall|symbol: Seq<char>| #[trigger] self.symbols@.contains_key(
                symbol,
            ) implies self@.symbols[symbol] == target.symbols[symbol] && self.symbols@[symbol].wf(
                self.market,
                symbol,
            ) by {
                assert(start.symbols@.contains_key(symbol));
                start.symbols.lemma_symbols();
                let i = choose|i: int| 0 <= i < names.len() && names[i] == symbol;
                assert(names[i] == symbol);
            }
            assert(self@.symbols =~= target.symbols);
        }
    }

    /// Takes a horizon after each continuous reference, where one is given.
    pub fn with_continuous_lookahead(self, lookahead: Option<Duration>) -> (r: Result<
        Self,
        ProductionError,
    >)
        requires
            self.wf(),
        ensures
            match self@.with_lookahead(lookahead) {
                Ok(model) => r is Ok && r->Ok_0.wf() && r->Ok_0@ == model && r->Ok_0.log()
                    == self.log(),
                Err(error) => r is Err && r->Err_0@ == error,
            },
    {
        let mut observer = self;
        if let Some(duration) = lookahead {
            let nanos: u128 = duration.as_nanos();
            if nanos > 0x7fff_ffff_ffff_ffff {
                return Err(ProductionError::Arithmetic("continuous lookahead"));
            }
            if nanos < REFERENCE_MILLISECOND_NS as u128 || nanos > 3
                * REFERENCE_SECOND_NS as u128 {
                return Err(
                    ProductionError::InvalidRequest(
                        String::from_str("continuous lookahead must be within [1ms, 3s]"),
                    ),
                );
            }
            observer.lookahead_override = true;
            observer.diagnostic_window_override = true;
            observer.continuous_lookahead_ns = nanos as i64;
        }
        observer.forget_rules();
        Ok(observer)
    }

    /// Limits how many failures a report holds in detail.
    #[must_use]
    pub fn with_max_detail_records(self, limit: Option<usize>) -> (r: Self)
        requires
            self.wf(),
        ensures
            r.wf(),
            r@ == (ObserverModel { max_detail_records: limit, ..self@ }),
            r.log() == self.log(),
    {
        let mut observer = self;
        observer.max_detail_records = limit;
        observer
    }

    /// The horizon of a symbol.
    #[must_use]
    pub fn lookahead_ns(&self, symbol: &str) -> (r: i64)
        ensures
            r == self@.rules(symbol@).lookahead_ns,
    {
        self.rules_for(symbol).lookahead_ns
    }

    /// The rules of a symbol under the configuration.
    #[must_use]
    pub fn rules_for(&self, symbol: &str) -> (r: SymbolValidationRules)
        ensures
            r == self@.rules(symbol@),
    {
        SymbolValidationRules::new(
            self.market,
            symbol,
            self.continuous_lookahead_ns,
            self.lookahead_override,
        )
    }

    fn observe_state(
        &mut self,
        channel: u32,
        symbol: &str,
        book: &OrderBook,
        point: ObservationPoint,
    ) -> (r: Result<(), ProductionError>)
        requires
            old(self).wf(),
            book.wf(),
        ensures
            final(self).wf(),
            final(self).log() == old(self).log(),
            final(self).origin() == old(self).origin(),
            ({
                let step = old(self)@.step(channel, symbol@, book@, point);
                &&& final(self)@ == old(self)@.with_symbol(symbol@, step.state)
                &&& outcome_is(r, step.error)
            }),
    {
        let market = self.market;
        let configured = self.rules_for(symbol);
        let pre_open_only = self.pre_open_only;
        let lookback_ns: i64 = self.continuous_lookback_ns;
        let state = self.symbol_state_mut(symbol);
        let rules = match state.rules {
            Some(rules) => rules,
            None => configured,
        };
        state.rules = Some(rules);
        state.seen = true;
        state.channel = Some(channel);
        state.observe_candidates(
            CandidateContext { market, rules, symbol, book, limits: None, close_price: None },
            point,
            WindowConfig { pre_open_only, lookback_ns, lookahead_ns: rules.lookahead_ns },
        )
    }
}

impl StateObserver for ValidationObserver {
    type Origin = ObserverModel;

    open spec fn origin(&self) -> ObserverModel {
        self.origin@
    }

    open spec fn log(&self) -> Seq<Observed> {
        self.shown@
    }

    /// What the observer knows is what it knew and what it was shown since.
    open spec fn ready(&self) -> bool {
        &&& self.wf()
        &&& self@ == self.origin@.shown_all(self.shown@)
        &&& self.stopped@ == self.origin@.refusal_all(self.shown@)
    }

    open spec fn refusal(&self) -> Option<ErrorModel> {
        self.stopped@
    }

    fn observe_trade_with_sequence(
        &mut self,
        channel: u32,
        symbol: &str,
        raw_sequence: u64,
        quote_time_ns: i64,
        price_units: i64,
        quantity: u64,
    ) -> (r: Result<(), ProductionError>)
        ensures
            ({
                let sample = TradeSample { quote_time_ns, price_units, quantity };
                &&& final(self)@ == old(self)@.traded(symbol@, Some(raw_sequence), sample)
                &&& outcome_is(r, old(self)@.trade_error(symbol@, sample))
            }),
    {
        let r = self.observe_trade_inner(
            symbol,
            Some(raw_sequence),
            quote_time_ns,
            price_units,
            quantity,
        );
        self.shown = Ghost(
            self.shown@.push(
                Observed::Trade {
                    channel,
                    symbol: symbol@,
                    raw_sequence,
                    quote_time_ns,
                    price_units,
                    quantity,
                },
            ),
        );
        self.stopped = Ghost(refusal_of(r));
        proof {
            assert(self.shown@.drop_last() =~= old(self).shown@);
        }
        r
    }

    fn observe(
        &mut self,
        channel: u32,
        symbol: &str,
        book: &OrderBook,
        point: ObservationPoint,
    ) -> (r: Result<(), ProductionError>)
        ensures
            ({
                let step = old(self)@.step(channel, symbol@, book@, point);
                &&& final(self)@ == old(self)@.with_symbol(symbol@, step.state)
                &&& outcome_is(r, step.error)
            }),
    {
        let r = self.observe_state(channel, symbol, book, point);
        self.shown = Ghost(
            self.shown@.push(Observed::State { channel, symbol: symbol@, book: book@, point }),
        );
        self.stopped = Ghost(refusal_of(r));
        proof {
            assert(self.shown@.drop_last() =~= old(self).shown@);
        }
        r
    }
}

} // verus!
