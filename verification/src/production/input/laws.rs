//! Laws of the input: every row is accounted for, and Shanghai rows are in sequence.

use vstd::prelude::*;

use super::super::types::MarketDayRequest;
use super::shanghai::{sse_ingested, sse_ingested_all, RawSseRow, SseIngest};
use super::shenzhen::{
    sz_execution_ingested, sz_execution_ingested_all, sz_order_ingested, sz_order_ingested_all,
    RawSzExecution, RawSzOrder, SzExecutionIngest, SzOrderIngest,
};
use super::stats::StatsModel;

verus! {

impl StatsModel {
    /// Every row that was read was selected or excluded.
    pub open spec fn accounted(self) -> bool {
        &&& self.wf()
        &&& self.settled() == self.input_rows
    }
}

proof fn lemma_tick_accounted(
    before: SseIngest,
    request: MarketDayRequest,
    midnight: int,
    cutoff: Option<i64>,
    raw: RawSseRow,
)
    requires
        before.stats.accounted(),
    ensures
        ({
            let after = sse_ingested(before, request, midnight, cutoff, raw);
            after.error is None ==> {
                &&& after.stats.accounted()
                &&& after.stats.input_rows == before.stats.input_rows + 1
                &&& after.stats.selected_rows - before.stats.selected_rows == after.rows.len()
                    - before.rows.len()
            }
        }),
{
    reveal(sse_ingested);
}

/// Every Shanghai tick that is read without an error is selected or excluded, and is counted once.
pub proof fn ticks_are_accounted_for(
    before: SseIngest,
    request: MarketDayRequest,
    midnight: int,
    cutoff: Option<i64>,
    raws: Seq<RawSseRow>,
)
    requires
        before.stats.accounted(),
    ensures
        ({
            let after = sse_ingested_all(before, request, midnight, cutoff, raws);
            after.error is None ==> {
                &&& after.stats.accounted()
                &&& after.stats.input_rows == before.stats.input_rows + raws.len()
                &&& after.stats.selected_rows - before.stats.selected_rows == after.rows.len()
                    - before.rows.len()
            }
        }),
    decreases raws.len(),
{
    if raws.len() > 0 && before.error is None {
        lemma_tick_accounted(before, request, midnight, cutoff, raws[0]);
        let first = sse_ingested(before, request, midnight, cutoff, raws[0]);
        if first.error is None {
            ticks_are_accounted_for(first, request, midnight, cutoff, raws.drop_first());
        }
    }
}

proof fn lemma_order_accounted(
    before: SzOrderIngest,
    request: MarketDayRequest,
    midnight: int,
    cutoff: Option<i64>,
    raw: RawSzOrder,
)
    requires
        before.stats.accounted(),
    ensures
        ({
            let after = sz_order_ingested(before, request, midnight, cutoff, raw);
            after.error is None ==> {
                &&& after.stats.accounted()
                &&& after.stats.input_rows == before.stats.input_rows + 1
                &&& after.stats.selected_rows - before.stats.selected_rows == after.rows.len()
                    - before.rows.len()
            }
        }),
{
    reveal(sz_order_ingested);
}

/// Every Shenzhen order that is read without an error is selected or excluded, and is counted once.
pub proof fn orders_are_accounted_for(
    before: SzOrderIngest,
    request: MarketDayRequest,
    midnight: int,
    cutoff: Option<i64>,
    raws: Seq<RawSzOrder>,
)
    requires
        before.stats.accounted(),
    ensures
        ({
            let after = sz_order_ingested_all(before, request, midnight, cutoff, raws);
            after.error is None ==> {
                &&& after.stats.accounted()
                &&& after.stats.input_rows == before.stats.input_rows + raws.len()
                &&& after.stats.selected_rows - before.stats.selected_rows == after.rows.len()
                    - before.rows.len()
            }
        }),
    decreases raws.len(),
{
    if raws.len() > 0 && before.error is None {
        lemma_order_accounted(before, request, midnight, cutoff, raws[0]);
        let first = sz_order_ingested(before, request, midnight, cutoff, raws[0]);
        if first.error is None {
            orders_are_accounted_for(first, request, midnight, cutoff, raws.drop_first());
        }
    }
}

proof fn lemma_execution_accounted(
    before: SzExecutionIngest,
    request: MarketDayRequest,
    midnight: int,
    cutoff: Option<i64>,
    raw: RawSzExecution,
)
    requires
        before.stats.accounted(),
    ensures
        ({
            let after = sz_execution_ingested(before, request, midnight, cutoff, raw);
            after.error is None ==> {
                &&& after.stats.accounted()
                &&& after.stats.input_rows == before.stats.input_rows + 1
                &&& after.stats.selected_rows - before.stats.selected_rows == after.rows.len()
                    - before.rows.len()
            }
        }),
{
    reveal(sz_execution_ingested);
}

/// Every Shenzhen execution that is read without an error is selected or excluded, and is counted once.
pub proof fn executions_are_accounted_for(
    before: SzExecutionIngest,
    request: MarketDayRequest,
    midnight: int,
    cutoff: Option<i64>,
    raws: Seq<RawSzExecution>,
)
    requires
        before.stats.accounted(),
    ensures
        ({
            let after = sz_execution_ingested_all(before, request, midnight, cutoff, raws);
            after.error is None ==> {
                &&& after.stats.accounted()
                &&& after.stats.input_rows == before.stats.input_rows + raws.len()
                &&& after.stats.selected_rows - before.stats.selected_rows == after.rows.len()
                    - before.rows.len()
            }
        }),
    decreases raws.len(),
{
    if raws.len() > 0 && before.error is None {
        lemma_execution_accounted(before, request, midnight, cutoff, raws[0]);
        let first = sz_execution_ingested(before, request, midnight, cutoff, raws[0]);
        if first.error is None {
            executions_are_accounted_for(first, request, midnight, cutoff, raws.drop_first());
        }
    }
}

impl SseIngest {
    /// The selected rows of each channel are in sequence, and none is beyond the last that was
    /// read.
    pub open spec fn in_sequence(self) -> bool {
        &&& forall|i: int|
            0 <= i < self.rows.len() ==> {
                &&& self.sequences.contains_key((#[trigger] self.rows[i]).channel)
                &&& self.rows[i].sequence <= self.sequences[self.rows[i].channel]
            }
        &&& forall|i: int, j: int|
            0 <= i < j < self.rows.len() && (#[trigger] self.rows[i]).channel == (
            #[trigger] self.rows[j]).channel ==> self.rows[i].sequence < self.rows[j].sequence
    }
}

proof fn lemma_tick_in_sequence(
    before: SseIngest,
    request: MarketDayRequest,
    midnight: int,
    cutoff: Option<i64>,
    raw: RawSseRow,
)
    requires
        before.in_sequence(),
    ensures
        ({
            let after = sse_ingested(before, request, midnight, cutoff, raw);
            after.error is None ==> after.in_sequence()
        }),
{
    reveal(sse_ingested);
}

/// The selected Shanghai ticks of a channel have growing sequences.
pub proof fn ticks_are_in_sequence(
    before: SseIngest,
    request: MarketDayRequest,
    midnight: int,
    cutoff: Option<i64>,
    raws: Seq<RawSseRow>,
)
    requires
        before.in_sequence(),
    ensures
        ({
            let after = sse_ingested_all(before, request, midnight, cutoff, raws);
            after.error is None ==> after.in_sequence()
        }),
    decreases raws.len(),
{
    if raws.len() > 0 && before.error is None {
        lemma_tick_in_sequence(before, request, midnight, cutoff, raws[0]);
        let first = sse_ingested(before, request, midnight, cutoff, raws[0]);
        if first.error is None {
            ticks_are_in_sequence(first, request, midnight, cutoff, raws.drop_first());
        }
    }
}

} // verus!
