//! The status of every known order.
use crate::orders::models::{
    create_order_response, CreateOrderResponse, OrderCreatedEvent, OrderStatus, OrderStatusResponse,
};
use vstd::hash_map::HashMapWithView;
use vstd::prelude::*;

verus! {

broadcast use vstd::std_specs::hash::group_hash_axioms;

pub struct OrderStore {
    orders: HashMapWithView<u128, OrderStatus>,
}

impl View for OrderStore {
    type V = Map<u128, OrderStatus>;

    closed spec fn view(&self) -> Map<u128, OrderStatus> {
        self.orders@
    }
}

impl OrderStore {
    pub fn new() -> (s: Self)
        ensures
            s@ == Map::<u128, OrderStatus>::empty(),
    {
        OrderStore { orders: HashMapWithView::new() }
    }

    /// Sets the status of an order, replacing the one it had.
    pub fn insert(&mut self, order_id: u128, status: OrderStatus)
        ensures
            final(self)@ == old(self)@.insert(order_id, status),
    {
        self.orders.insert(order_id, status);
    }

    /// The status of an order, if it is known.
    pub fn get(&self, order_id: u128) -> (status: Option<OrderStatus>)
        ensures
            match status {
                Some(s) => self@.contains_key(order_id) && s == self@[order_id],
                None => !self@.contains_key(order_id),
            },
    {
        match self.orders.get(&order_id) {
            Some(s) => Some(*s),
            None => None,
        }
    }
}

impl Default for OrderStore {
    fn default() -> (s: Self)
        ensures
            s@ == Map::<u128, OrderStatus>::empty(),
    {
        OrderStore::new()
    }
}

/// Consuming an "order.created" event marks its order as processed.
pub fn process_event(event: OrderCreatedEvent, orders: &mut OrderStore)
    ensures
        final(orders)@ == old(orders)@.insert(event.order_id, OrderStatus::Processed),
{
    orders.insert(event.order_id, OrderStatus::Processed);
}

/// Records an accepted order as created.
pub fn record_created(order_id: u128, orders: &mut OrderStore)
    ensures
        final(orders)@ == old(orders)@.insert(order_id, OrderStatus::Created),
{
    orders.insert(order_id, OrderStatus::Created);
}

/// After publishing an order's event: a published order is recorded as
/// created and answered (with 202); an order whose event could not be
/// published is not recorded, and the publishing error is answered instead.
pub fn finish_order(order_id: u128, published: bool, orders: &mut OrderStore) -> (r: Option<
    CreateOrderResponse,
>)
    ensures
        published ==> final(orders)@ == old(orders)@.insert(order_id, OrderStatus::Created),
        published ==> (r matches Some(c) && c.order_id == order_id && c.status
            == OrderStatus::Created),
        !published ==> final(orders)@ == old(orders)@ && r is None,
{
    if published {
        record_created(order_id, orders);
        Some(create_order_response(order_id))
    } else {
        None
    }
}

/// The status answer for an order, or `None` (404) when it is unknown.
pub fn get_order(orders: &OrderStore, order_id: u128) -> (r: Option<OrderStatusResponse>)
    ensures
        match r {
            Some(resp) => orders@.contains_key(order_id) && resp.order_id == order_id
                && resp.status == orders@[order_id],
            None => !orders@.contains_key(order_id),
        },
{
    match orders.get(order_id) {
        Some(status) => Some(OrderStatusResponse { order_id, status }),
        None => None,
    }
}

/// Read-your-write: after an order's status is set, that order reports the
/// new status and every other order reports what it did before.
pub proof fn lemma_status_after_insert(
    orders: Map<u128, OrderStatus>,
    order_id: u128,
    status: OrderStatus,
    other: u128,
)
    ensures
        orders.insert(order_id, status).contains_key(order_id),
        orders.insert(order_id, status)[order_id] == status,
        other != order_id ==> (orders.insert(order_id, status).contains_key(other)
            == orders.contains_key(other) && orders.insert(order_id, status)[other]
            == orders[other]),
{
}

} // verus!
