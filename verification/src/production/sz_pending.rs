//! Bounded, fail-closed resolution of immediate SZ execution responses.
//!
//! Adjacency is a checked necessary condition, never proof that the source
//! guarantees execution groups. Only explicit diagnostic mode infers a rest.

use vstd::prelude::*;

use super::error::{ErrorModel, ProductionError};
use super::rows::{SzExecutionKind, SzExecutionRow, SzOrderKind, SzOrderRow, SzSide};
use super::types::SzMarketOrderPolicy;

verus! {

pub const MAX_RESPONSES: usize = 65_536;

/// What becomes of an order once its immediate responses are known.
#[derive(Clone, Copy, Debug, PartialEq, Eq, Structural)]
pub enum Disposition {
    Terminal,
    Rest(i64),
}

/// An order whose immediate responses are being collected.
pub struct PendingOrder {
    pub order: SzOrderRow,
    pub remaining: u64,
    pub initial_best: Option<i64>,
    pub first_trade_price: Option<i64>,
    pub multiple_prices: bool,
    pub last_sequence: u64,
    pub responses: usize,
}

impl PendingOrder {
    /// The pending state before any response.
    pub open spec fn spec_new(order: SzOrderRow, initial_best: Option<i64>) -> Self {
        PendingOrder {
            order,
            remaining: order.quantity,
            initial_best,
            first_trade_price: None,
            multiple_prices: false,
            last_sequence: order.sequence,
            responses: 0,
        }
    }

    pub fn new(order: &SzOrderRow, initial_best: Option<i64>) -> (r: Self)
        ensures
            r == Self::spec_new(*order, initial_best),
    {
        Self {
            order: order.clone(),
            remaining: order.quantity,
            initial_best,
            first_trade_price: None,
            multiple_prices: false,
            last_sequence: order.sequence,
            responses: 0,
        }
    }

    pub open spec fn spec_error(self, detail: Seq<char>) -> ErrorModel {
        ErrorModel::UnresolvedSzOrder {
            symbol: self.order.symbol@,
            channel: self.order.channel,
            order_sequence: self.order.sequence,
            last_sequence: self.last_sequence,
            detail,
        }
    }

    pub fn error(&self, detail: &'static str) -> (r: ProductionError)
        ensures
            r@ == self.spec_error(detail@),
    {
        ProductionError::UnresolvedSzOrder {
            symbol: self.order.symbol.clone(),
            channel: self.order.channel,
            order_sequence: self.order.sequence,
            last_sequence: self.last_sequence,
            detail,
        }
    }

    /// Whether an execution names the order on its side.
    pub open spec fn spec_references(self, execution: SzExecutionRow) -> bool {
        &&& execution.channel == self.order.channel
        &&& execution.symbol@ == self.order.symbol@
        &&& match self.order.side {
            SzSide::Buy => execution.bid_order_no == self.order.sequence,
            SzSide::Sell => execution.ask_order_no == self.order.sequence,
        }
    }

    pub fn references(&self, execution: &SzExecutionRow) -> (r: bool)
        ensures
            r == self.spec_references(*execution),
    {
        execution.channel == self.order.channel && execution.symbol == self.order.symbol
            && match self.order.side {
            SzSide::Buy => execution.bid_order_no == self.order.sequence,
            SzSide::Sell => execution.ask_order_no == self.order.sequence,
        }
    }

    /// Why a response cannot be taken.
    pub open spec fn observe_complaint(self, execution: SzExecutionRow) -> Option<Seq<char>> {
        let other = match self.order.side {
            SzSide::Buy => execution.ask_order_no,
            SzSide::Sell => execution.bid_order_no,
        };
        if !self.spec_references(execution) {
            Some("response does not reference pending order"@)
        } else if execution.sequence != self.last_sequence + 1 {
            Some("non-adjacent response; missing or filtered channel events"@)
        } else if execution.quote_time_ns != self.order.quote_time_ns {
            Some("response crosses quote-time boundary; cannot publish exact snapshots"@)
        } else if self.responses == MAX_RESPONSES {
            Some("execution group exceeds bounded response buffer"@)
        } else if execution.quantity == 0 || execution.quantity > self.remaining {
            Some("zero quantity or response exceeds pending remainder"@)
        } else if execution.kind == SzExecutionKind::Cancel {
            if other != 0 || execution.quantity != self.remaining {
                Some("cancellation must have one reference and cover exact remainder"@)
            } else {
                None
            }
        } else if self.order.kind == SzOrderKind::SameSideBest || self.initial_best is None {
            Some("empty reference book order unexpectedly trades"@)
        } else if execution.price_units <= 0 {
            Some("non-positive execution price"@)
        } else {
            None
        }
    }

    /// The pending state after a response that can be taken.
    pub open spec fn observe_next(self, execution: SzExecutionRow) -> Self {
        let traded = execution.kind == SzExecutionKind::Trade;
        PendingOrder {
            remaining: (self.remaining - execution.quantity) as u64,
            first_trade_price: if traded && self.first_trade_price is None {
                Some(execution.price_units)
            } else {
                self.first_trade_price
            },
            multiple_prices: self.multiple_prices || (traded && self.first_trade_price is Some
                && self.first_trade_price->0 != execution.price_units),
            last_sequence: execution.sequence,
            responses: (self.responses + 1) as usize,
            ..self
        }
    }

    /// Takes one response, or refuses it and stays as it was.
    pub fn observe(&mut self, execution: &SzExecutionRow) -> (r: Result<(), ProductionError>)
        requires
            old(self).responses <= MAX_RESPONSES,
        ensures
            match old(self).observe_complaint(*execution) {
                Some(detail) => r is Err && r->Err_0@ == old(self).spec_error(detail)
                    && *final(self) == *old(self),
                None => r is Ok && *final(self) == old(self).observe_next(*execution),
            },
            final(self).responses <= MAX_RESPONSES,
    {
        if !self.references(execution) {
            return Err(self.error("response does not reference pending order"));
        }
        if self.last_sequence == u64::MAX || self.last_sequence + 1 != execution.sequence {
            return Err(self.error("non-adjacent response; missing or filtered channel events"));
        }
        // With no source execution boundary, do not backfill a state across
        // quote-time cutoffs. Same-millisecond groups are indivisible by < T.
        if execution.quote_time_ns != self.order.quote_time_ns {
            return Err(
                self.error("response crosses quote-time boundary; cannot publish exact snapshots"),
            );
        }
        if self.responses == MAX_RESPONSES {
            return Err(self.error("execution group exceeds bounded response buffer"));
        }
        if execution.quantity == 0 || execution.quantity > self.remaining {
            return Err(self.error("zero quantity or response exceeds pending remainder"));
        }
        let mut first_price = self.first_trade_price;
        let mut multiple = self.multiple_prices;
        match execution.kind {
            SzExecutionKind::Cancel => {
                let other: u64 = match self.order.side {
                    SzSide::Buy => execution.ask_order_no,
                    SzSide::Sell => execution.bid_order_no,
                };
                if other != 0 || execution.quantity != self.remaining {
                    return Err(
                        self.error(
                            "cancellation must have one reference and cover exact remainder",
                        ),
                    );
                }
            },
            SzExecutionKind::Trade => {
                if self.order.kind == SzOrderKind::SameSideBest || self.initial_best.is_none() {
                    return Err(self.error("empty reference book order unexpectedly trades"));
                }
                if execution.price_units <= 0 {
                    return Err(self.error("non-positive execution price"));
                }
                match first_price {
                    Some(price) => {
                        multiple = multiple || price != execution.price_units;
                    },
                    None => {
                        first_price = Some(execution.price_units);
                    },
                }
            },
        }
        self.remaining = self.remaining - execution.quantity;
        self.first_trade_price = first_price;
        self.multiple_prices = multiple;
        self.last_sequence = execution.sequence;
        self.responses = self.responses + 1;
        Ok(())
    }

    /// Whether nothing of the order is left.
    pub fn terminal(&self) -> (r: bool)
        ensures
            r == (self.remaining == 0),
    {
        self.remaining == 0
    }

    /// Why what is left of the order cannot be disposed of.
    pub open spec fn finish_complaint(
        self,
        policy: SzMarketOrderPolicy,
        next_sequence: Option<u64>,
    ) -> Option<Seq<char>> {
        if self.remaining == 0 {
            None
        } else if self.order.kind == SzOrderKind::SameSideBest {
            Some("empty same-side best requires source cancellation reconciliation"@)
        } else if policy != SzMarketOrderPolicy::AssumeContiguous {
            Some("market remainder lacks execution qualifier or verified completion boundary"@)
        } else if next_sequence is None || next_sequence->0 != self.last_sequence + 1 {
            Some("EOF or sequence gap cannot prove immediate execution completion"@)
        } else if self.multiple_prices {
            Some("multiple execution prices with uncancelled remainder"@)
        } else if self.first_trade_price is Some && self.initial_best == self.first_trade_price {
            None
        } else {
            Some("remainder price is not supported by initial opposite best and executions"@)
        }
    }

    /// What becomes of the order.
    pub open spec fn finish_disposition(self) -> Disposition {
        if self.remaining == 0 {
            Disposition::Terminal
        } else {
            Disposition::Rest(self.initial_best->0)
        }
    }

    pub fn finish(&self, policy: SzMarketOrderPolicy, next_sequence: Option<u64>) -> (r: Result<
        Disposition,
        ProductionError,
    >)
        ensures
            match self.finish_complaint(policy, next_sequence) {
                Some(detail) => r is Err && r->Err_0@ == self.spec_error(detail),
                None => r == Ok::<Disposition, ProductionError>(self.finish_disposition()),
            },
    {
        if self.terminal() {
            return Ok(Disposition::Terminal);
        }
        if self.order.kind == SzOrderKind::SameSideBest {
            return Err(
                self.error("empty same-side best requires source cancellation reconciliation"),
            );
        }
        if policy != SzMarketOrderPolicy::AssumeContiguous {
            return Err(
                self.error(
                    "market remainder lacks execution qualifier or verified completion boundary",
                ),
            );
        }
        let adjacent = match next_sequence {
            Some(next) => self.last_sequence < u64::MAX && self.last_sequence + 1 == next,
            None => false,
        };
        if !adjacent {
            return Err(
                self.error("EOF or sequence gap cannot prove immediate execution completion"),
            );
        }
        if self.multiple_prices {
            return Err(self.error("multiple execution prices with uncancelled remainder"));
        }
        match (self.first_trade_price, self.initial_best) {
            (Some(traded), Some(best)) => {
                if traded == best {
                    return Ok(Disposition::Rest(best));
                }
            },
            _ => {},
        }
        Err(
            self.error(
                "remainder price is not supported by initial opposite best and executions",
            ),
        )
    }
}

} // verus!
