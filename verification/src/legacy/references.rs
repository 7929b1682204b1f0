use std::collections::HashMap;

use vstd::prelude::*;

use crate::market_data::{OrderId, OrderKey, Side};

verus! {

/// What a source identifier stands for.
#[derive(Clone, Copy, Debug, PartialEq, Eq, Structural)]
pub enum ReferenceEntry {
    Unique(OrderKey),
    Ambiguous,
}

/// What a source identifier resolves to.
#[derive(Clone, Copy, Debug, PartialEq, Eq, Structural)]
pub enum Resolution {
    Missing,
    Unique(OrderKey),
    Ambiguous,
}

/// Historical index used to map trade-side identifiers to complete order keys.
///
/// Entries are retained after an order completes or is cancelled. Registration
/// must occur only after the corresponding `AddOrder` was successfully applied.
#[derive(Clone, Debug)]
pub struct OrderReferenceIndex {
    buys: HashMap<u64, ReferenceEntry>,
    sells: HashMap<u64, ReferenceEntry>,
}

/// The entries by order number, for each side.
#[verifier::ext_equal]
pub struct ReferenceIndexModel {
    pub buys: Map<u64, ReferenceEntry>,
    pub sells: Map<u64, ReferenceEntry>,
}

impl View for OrderReferenceIndex {
    type V = ReferenceIndexModel;

    closed spec fn view(&self) -> ReferenceIndexModel {
        ReferenceIndexModel { buys: self.buys@, sells: self.sells@ }
    }
}

/// Entries once an order is known: an identifier that two orders share is ambiguous for good.
pub open spec fn registered_entry(entries: Map<u64, ReferenceEntry>, key: OrderKey) -> Map<
    u64,
    ReferenceEntry,
> {
    let id = key.order_id.spec_get();
    entries.insert(
        id,
        if !entries.contains_key(id) || entries[id] == ReferenceEntry::Unique(key) {
            ReferenceEntry::Unique(key)
        } else {
            ReferenceEntry::Ambiguous
        },
    )
}

impl ReferenceIndexModel {
    pub open spec fn empty() -> Self {
        ReferenceIndexModel { buys: Map::empty(), sells: Map::empty() }
    }

    pub open spec fn side(self, side: Side) -> Map<u64, ReferenceEntry> {
        match side {
            Side::Buy => self.buys,
            Side::Sell => self.sells,
        }
    }

    /// The index once an order is known.
    pub open spec fn registered(self, key: OrderKey) -> Self {
        match key.side {
            Side::Buy => ReferenceIndexModel { buys: registered_entry(self.buys, key), ..self },
            Side::Sell => ReferenceIndexModel { sells: registered_entry(self.sells, key), ..self },
        }
    }

    /// What an identifier resolves to.
    pub open spec fn resolution(self, side: Side, order_id: OrderId) -> Resolution {
        let entries = self.side(side);
        let id = order_id.spec_get();
        if !entries.contains_key(id) {
            Resolution::Missing
        } else {
            match entries[id] {
                ReferenceEntry::Unique(key) => Resolution::Unique(key),
                ReferenceEntry::Ambiguous => Resolution::Ambiguous,
            }
        }
    }
}

fn register_entry(entries: &mut HashMap<u64, ReferenceEntry>, key: OrderKey)
    ensures
        final(entries)@ == registered_entry(old(entries)@, key),
{
    broadcast use vstd::std_specs::hash::group_hash_axioms;

    let ghost before = entries@;
    let id: u64 = key.order_id.get();
    let entry = match entries.get(&id) {
        None => ReferenceEntry::Unique(key),
        Some(ReferenceEntry::Unique(existing)) => if *existing == key {
            ReferenceEntry::Unique(key)
        } else {
            ReferenceEntry::Ambiguous
        },
        Some(ReferenceEntry::Ambiguous) => ReferenceEntry::Ambiguous,
    };
    entries.insert(id, entry);
    assert(entries@ =~= registered_entry(before, key));
}

fn find_entry(entries: &HashMap<u64, ReferenceEntry>, order_id: OrderId) -> (r: Resolution)
    ensures
        r == (ReferenceIndexModel { buys: entries@, sells: entries@ }).resolution(
            Side::Buy,
            order_id,
        ),
{
    broadcast use vstd::std_specs::hash::group_hash_axioms;

    match entries.get(&order_id.get()) {
        None => Resolution::Missing,
        Some(ReferenceEntry::Unique(key)) => Resolution::Unique(*key),
        Some(ReferenceEntry::Ambiguous) => Resolution::Ambiguous,
    }
}

impl Default for OrderReferenceIndex {
    fn default() -> (r: Self)
        ensures
            r@ == ReferenceIndexModel::empty(),
    {
        Self::new()
    }
}

impl OrderReferenceIndex {
    #[must_use]
    pub fn new() -> (r: Self)
        ensures
            r@ == ReferenceIndexModel::empty(),
    {
        broadcast use vstd::std_specs::hash::group_hash_axioms;

        let r = OrderReferenceIndex { buys: HashMap::new(), sells: HashMap::new() };
        assert(r@ =~= ReferenceIndexModel::empty());
        r
    }

    pub fn register(&mut self, key: OrderKey)
        ensures
            final(self)@ == old(self)@.registered(key),
    {
        match key.side {
            Side::Buy => register_entry(&mut self.buys, key),
            Side::Sell => register_entry(&mut self.sells, key),
        }
    }

    pub fn resolve(&self, side: Side, order_id: OrderId) -> (r: Resolution)
        ensures
            r == self@.resolution(side, order_id),
    {
        match side {
            Side::Buy => find_entry(&self.buys, order_id),
            Side::Sell => find_entry(&self.sells, order_id),
        }
    }
}

/// An order that was registered is found by its identifier, unless another order has the same.
pub proof fn registered_orders_are_found(index: ReferenceIndexModel, key: OrderKey)
    ensures
        ({
            let before = index.resolution(key.side, key.order_id);
            let after = index.registered(key).resolution(key.side, key.order_id);
            if before == Resolution::Missing || before == Resolution::Unique(key) {
                after == Resolution::Unique(key)
            } else {
                after == Resolution::Ambiguous
            }
        }),
{
}

/// An identifier that is ambiguous stays so.
pub proof fn ambiguity_is_final(
    index: ReferenceIndexModel,
    key: OrderKey,
    side: Side,
    order_id: OrderId,
)
    requires
        index.resolution(side, order_id) == Resolution::Ambiguous,
    ensures
        index.registered(key).resolution(side, order_id) == Resolution::Ambiguous,
{
}

} // verus!
