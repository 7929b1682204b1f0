use vstd::prelude::*;

use crate::order_book::{BookModel, OrderBook};

use super::super::error::{ErrorModel, ProductionError};
use super::sz::LAST_QUOTE_TIME_NS;

verus! {

/// When a book is shown to an observer.
#[derive(Clone, Copy, Debug, PartialEq, Eq, Structural)]
pub enum ObservationPoint {
    BeforeEvent(i64),
    AfterEvent(i64),
    MarketClose(i64),
    ChannelFinished,
}

/// What an observer was shown.
#[allow(inconsistent_fields)]
pub enum Observed {
    State { channel: u32, symbol: Seq<char>, book: BookModel, point: ObservationPoint },
    Trade {
        channel: u32,
        symbol: Seq<char>,
        raw_sequence: u64,
        quote_time_ns: i64,
        price_units: i64,
        quantity: u64,
    },
}

/// Whether an answer is what an observer says of it: it goes on, or refuses and says why.
pub open spec fn answered(r: Result<(), ProductionError>, refusal: Option<ErrorModel>) -> bool {
    match refusal {
        Some(error) => r is Err && r->Err_0@ == error,
        None => r is Ok,
    }
}

/// Everything an observer was shown, in order.
pub type ObservationLog = Seq<Observed>;

/// Sees the states of the books as a replay goes on, and may stop it.
pub trait StateObserver {
    /// What an observer knows before it is shown anything.
    type Origin;

    /// What this observer knew.
    spec fn origin(&self) -> Self::Origin;

    /// What was shown so far.
    spec fn log(&self) -> ObservationLog;

    /// Whether the observer can be shown more.
    spec fn ready(&self) -> bool;

    /// Why the observer stopped the replay, if it did.
    spec fn refusal(&self) -> Option<ErrorModel>;

    // Audit metadata only. Pending groups may end in a cancellation, so the
    // final book metadata cannot identify the last successful trade's sequence.
    fn observe_trade_with_sequence(
        &mut self,
        channel: u32,
        symbol: &str,
        raw_sequence: u64,
        quote_time_ns: i64,
        price_units: i64,
        quantity: u64,
    ) -> (r: Result<(), ProductionError>)
        requires
            old(self).ready(),
            old(self).refusal() is None,
            quote_time_ns <= LAST_QUOTE_TIME_NS,
        ensures
            final(self).ready(),
            final(self).origin() == old(self).origin(),
            final(self).log() == old(self).log().push(
                Observed::Trade {
                    channel,
                    symbol: symbol@,
                    raw_sequence,
                    quote_time_ns,
                    price_units,
                    quantity,
                },
            ),
            answered(r, final(self).refusal()),
    ;

    fn observe(
        &mut self,
        channel: u32,
        symbol: &str,
        book: &OrderBook,
        point: ObservationPoint,
    ) -> (r: Result<(), ProductionError>)
        requires
            old(self).ready(),
            old(self).refusal() is None,
            book.wf(),
        ensures
            final(self).ready(),
            final(self).origin() == old(self).origin(),
            final(self).log() == old(self).log().push(
                Observed::State { channel, symbol: symbol@, book: book@, point },
            ),
            answered(r, final(self).refusal()),
    ;
}

/// Looks at nothing.
pub struct NullObserver {
    shown: Ghost<Seq<Observed>>,
}

impl NullObserver {
    #[must_use]
    pub fn new() -> (r: Self)
        ensures
            r.log() == Seq::<Observed>::empty(),
            r.ready(),
    {
        NullObserver { shown: Ghost(Seq::empty()) }
    }
}

impl StateObserver for NullObserver {
    type Origin = ();

    open spec fn origin(&self) -> () {
        ()
    }

    closed spec fn log(&self) -> Seq<Observed> {
        self.shown@
    }

    open spec fn ready(&self) -> bool {
        true
    }

    open spec fn refusal(&self) -> Option<ErrorModel> {
        None
    }

    fn observe_trade_with_sequence(
        &mut self,
        channel: u32,
        symbol: &str,
        raw_sequence: u64,
        quote_time_ns: i64,
        price_units: i64,
        quantity: u64,
    ) -> (r: Result<(), ProductionError>) {
        self.shown = Ghost(
            self.shown@.push(
                Observed::Trade {
                    channel,
                    symbol: symbol@,
                    raw_sequence,
                    quote_time_ns,
                    price_units,
                    quantity,
                },
            ),
        );
        Ok(())
    }

    fn observe(
        &mut self,
        channel: u32,
        symbol: &str,
        book: &OrderBook,
        point: ObservationPoint,
    ) -> (r: Result<(), ProductionError>) {
        self.shown = Ghost(
            self.shown@.push(Observed::State { channel, symbol: symbol@, book: book@, point }),
        );
        Ok(())
    }
}

} // verus!
