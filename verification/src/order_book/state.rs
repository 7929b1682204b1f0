//! Order storage, price-level state and trade statistics.

use slotmap::{DefaultKey, Key, KeyData, SlotMap};
use vstd::prelude::*;

use crate::market_data::{OrderKey, Price, Quantity};

verus! {

/// Greatest number of orders that the storage can hold at once.
pub const MAX_STORED_ORDERS: u32 = 0xffff_fffe;

/// Position of one stored order, as the integer form of a slot-map key.
#[derive(Clone, Copy, Debug, PartialEq, Eq, Hash, Structural)]
pub struct OrderHandle {
    pub(crate) raw: u64,
}

impl OrderHandle {
    /// The upper half of a slot-map key is its version, which is odd for every key.
    #[verifier::type_invariant]
    pub(crate) open spec fn inv(self) -> bool {
        (self.raw / 0x1_0000_0000) % 2 == 1
    }
}

#[derive(Clone, Copy, Debug, PartialEq, Eq, Structural)]
pub enum OrderLocation {
    Resting,
    Aggressive,
}

#[derive(Clone, Copy, Debug, PartialEq, Eq, Structural)]
pub struct OrderState {
    pub key: OrderKey,
    pub effective_price: Option<Price>,
    pub original_quantity: Quantity,
    pub remaining_quantity: u64,
    pub previous: Option<OrderHandle>,
    pub next: Option<OrderHandle>,
    pub location: OrderLocation,
    pub allow_reentry: bool,
    pub reprice_from_trade: bool,
}

/// Stored orders: the slot map of the `slotmap` crate, held as an opaque value.
#[verifier::external_body]
pub struct OrderStorage {
    slots: SlotMap<DefaultKey, OrderState>,
}

/// The stored orders, by the integer form of their keys.
pub uninterp spec fn stored_orders(orders: OrderStorage) -> Map<u64, OrderState>;

/// `slotmap::SlotMap::new`: an empty slot map.
#[verifier::external_body]
pub(crate) fn new_storage() -> (r: OrderStorage)
    ensures
        stored_orders(r).dom() == Set::<u64>::empty(),
{
    OrderStorage { slots: SlotMap::new() }
}

/// `slotmap::SlotMap::len`: the number of stored orders.
#[verifier::external_body]
pub(crate) fn storage_len(orders: &OrderStorage) -> (r: usize)
    ensures
        r == stored_orders(*orders).len(),
{
    orders.slots.len()
}

/// `slotmap::SlotMap::insert`: stores the order under a key that was free and
/// leaves all other entries alone. It panics on a full map, which `requires` leaves
/// out: a map that nothing was detached from is full at `MAX_STORED_ORDERS` entries.
#[verifier::external_body]
pub(crate) fn storage_insert(orders: &mut OrderStorage, state: OrderState) -> (r: OrderHandle)
    requires
        stored_orders(*old(orders)).dom().finite(),
        stored_orders(*old(orders)).len() < MAX_STORED_ORDERS,
    ensures
        r.inv(),
        !stored_orders(*old(orders)).contains_key(r.raw),
        stored_orders(*final(orders)) == stored_orders(*old(orders)).insert(r.raw, state),
{
    OrderHandle { raw: orders.slots.insert(state).data().as_ffi() }
}

/// `slotmap::SlotMap::get`: the order stored under the key, if there is one.
#[verifier::external_body]
pub(crate) fn storage_get(orders: &OrderStorage, handle: OrderHandle) -> (r: Option<&OrderState>)
    requires
        handle.inv(),
    ensures
        r is Some <==> stored_orders(*orders).contains_key(handle.raw),
        r is Some ==> *r->0 == stored_orders(*orders)[handle.raw],
{
    orders.slots.get(DefaultKey::from(KeyData::from_ffi(handle.raw)))
}

/// `slotmap::SlotMap::get_mut`: access to the order stored under the key, if there is
/// one; all other entries stay as they are.
#[verifier::external_body]
pub(crate) fn storage_get_mut(orders: &mut OrderStorage, handle: OrderHandle) -> (r: Option<
    &mut OrderState,
>)
    requires
        handle.inv(),
    ensures
        r is Some <==> stored_orders(*old(orders)).contains_key(handle.raw),
        r matches Some(state) ==> *state == stored_orders(*old(orders))[handle.raw]
            && stored_orders(*final(orders)) == stored_orders(*old(orders)).insert(
            handle.raw,
            *final(state),
        ),
        r is None ==> stored_orders(*final(orders)) == stored_orders(*old(orders)),
{
    orders.slots.get_mut(DefaultKey::from(KeyData::from_ffi(handle.raw)))
}

/// `slotmap::SlotMap::remove`: takes out the entry of the key, if there is one, and
/// leaves all other entries alone.
#[verifier::external_body]
pub(crate) fn storage_remove(orders: &mut OrderStorage, handle: OrderHandle) -> (r: Option<
    OrderState,
>)
    requires
        handle.inv(),
    ensures
        r is Some <==> stored_orders(*old(orders)).contains_key(handle.raw),
        r is Some ==> r->0 == stored_orders(*old(orders))[handle.raw],
        stored_orders(*final(orders)) == stored_orders(*old(orders)).remove(handle.raw),
{
    orders.slots.remove(DefaultKey::from(KeyData::from_ffi(handle.raw)))
}

/// `slotmap::SlotMap::keys`: the keys of all entries, each once, in no stated order.
#[verifier::external_body]
pub(crate) fn storage_handles(orders: &OrderStorage) -> (r: Vec<OrderHandle>)
    ensures
        forall|i: int| 0 <= i < r@.len() ==> stored_orders(*orders).contains_key((#[trigger] r@[i]).raw),
        forall|raw: u64| #[trigger] stored_orders(*orders).contains_key(raw) ==> r@.contains(OrderHandle { raw }),
        r@.no_duplicates(),
{
    orders.slots.keys().map(|key| OrderHandle { raw: key.data().as_ffi() }).collect()
}

/// One visible price level: its aggregates and the ends of its FIFO queue.
#[derive(Clone, Copy, Debug, PartialEq, Eq, Structural)]
pub struct PriceLevelState {
    pub price: Price,
    pub total_quantity: u64,
    pub order_count: usize,
    pub head: Option<OrderHandle>,
    pub tail: Option<OrderHandle>,
}

/// Quantity totals over the visible orders of one side.
#[derive(Clone, Copy, Debug, PartialEq, Eq, Structural)]
pub struct SideAggregate {
    pub total_quantity: u64,
    pub weighted_price_quantity: u128,
}

} // verus!
