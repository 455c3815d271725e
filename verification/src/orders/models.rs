//! Orders, their events and the API bodies. Order and event identifiers are
//! UUIDs held as their 128-bit values.
use crate::ids::{new_uuid_v4, uuid_hyphenated, uuid_hyphenated_string};
use crate::orders::EventTransport;
use vstd::prelude::*;

verus! {

#[derive(Debug, Clone, Copy, PartialEq, Eq, Structural)]
pub enum OrderStatus {
    Created,
    Processed,
}

pub struct CreateOrderRequest {
    pub user_id: String,
    pub amount: u64,
}

pub struct OrderCreatedEvent {
    pub event_id: u128,
    pub order_id: u128,
    pub user_id: String,
    pub amount: u64,
    pub event_type: String,
}

pub struct CreateOrderResponse {
    pub order_id: u128,
    pub status: OrderStatus,
}

pub struct OrderStatusResponse {
    pub order_id: u128,
    pub status: OrderStatus,
}

pub struct HealthResponse {
    pub status: &'static str,
    pub mode: &'static str,
}

/// Why an order request is refused (with 400).
#[derive(Debug, Clone, Copy, PartialEq, Eq, Structural)]
pub enum OrderRejection {
    MissingUserId,
    ZeroAmount,
}

impl OrderRejection {
    /// The message sent back with the refusal.
    pub fn message(&self) -> (m: &'static str)
        ensures
            m@ == (match self {
                OrderRejection::MissingUserId => "user_id is required"@,
                OrderRejection::ZeroAmount => "amount must be greater than 0"@,
            }),
    {
        match self {
            OrderRejection::MissingUserId => "user_id is required",
            OrderRejection::ZeroAmount => "amount must be greater than 0",
        }
    }
}

/// Characters with the Unicode `White_Space` property, which `str::trim` removes.
pub open spec fn is_white_space(c: char) -> bool {
    ||| '\u{9}' <= c <= '\u{d}'
    ||| c == ' '
    ||| c == '\u{85}'
    ||| c == '\u{a0}'
    ||| c == '\u{1680}'
    ||| '\u{2000}' <= c <= '\u{200a}'
    ||| c == '\u{2028}'
    ||| c == '\u{2029}'
    ||| c == '\u{202f}'
    ||| c == '\u{205f}'
    ||| c == '\u{3000}'
}

/// `s.trim()` is empty: every character is white space.
pub open spec fn is_blank(s: Seq<char>) -> bool {
    forall|i: int| 0 <= i < s.len() ==> is_white_space(#[trigger] s[i])
}

/// `char::is_whitespace`.
pub fn char_is_white_space(c: char) -> (r: bool)
    ensures
        r == is_white_space(c),
{
    ('\u{9}' <= c && c <= '\u{d}') || c == ' ' || c == '\u{85}' || c == '\u{a0}' || c == '\u{1680}'
        || ('\u{2000}' <= c && c <= '\u{200a}') || c == '\u{2028}' || c == '\u{2029}' || c
        == '\u{202f}' || c == '\u{205f}' || c == '\u{3000}'
}

/// `s.trim().is_empty()`.
pub fn str_is_blank(s: &str) -> (r: bool)
    ensures
        r == is_blank(s@),
{
    let n = s.unicode_len();
    let mut i: usize = 0;
    while i < n
        invariant
            n == s@.len(),
            i <= n,
            forall|j: int| 0 <= j < i ==> is_white_space(#[trigger] s@[j]),
        decreases n - i,
    {
        if !char_is_white_space(s.get_char(i)) {
            return false;
        }
        i = i + 1;
    }
    true
}

/// Checks an order request: a user id that is not blank, then a positive amount.
pub fn validate_order(request: &CreateOrderRequest) -> (r: Result<(), OrderRejection>)
    ensures
        r == (if is_blank(request.user_id@) {
            Err(OrderRejection::MissingUserId)
        } else if request.amount == 0 {
            Err(OrderRejection::ZeroAmount)
        } else {
            Ok(())
        }),
{
    if str_is_blank(request.user_id.as_str()) {
        return Err(OrderRejection::MissingUserId);
    }
    if request.amount == 0 {
        return Err(OrderRejection::ZeroAmount);
    }
    Ok(())
}

/// The "order.created" event of an accepted request.
pub fn order_created_event(request: CreateOrderRequest, event_id: u128, order_id: u128) -> (e:
    OrderCreatedEvent)
    ensures
        e.event_id == event_id,
        e.order_id == order_id,
        e.user_id@ == request.user_id@,
        e.amount == request.amount,
        e.event_type@ == "order.created"@,
{
    OrderCreatedEvent {
        event_id,
        order_id,
        user_id: request.user_id,
        amount: request.amount,
        event_type: String::from_str("order.created"),
    }
}

/// The event of an accepted request, with fresh random event and order ids.
pub fn new_order_created_event(request: CreateOrderRequest) -> (e: OrderCreatedEvent)
    ensures
        e.user_id@ == request.user_id@,
        e.amount == request.amount,
        e.event_type@ == "order.created"@,
{
    let event_id = new_uuid_v4();
    let order_id = new_uuid_v4();
    order_created_event(request, event_id, order_id)
}

/// The Kafka message key of an order's event: the order id in its
/// hyphenated UUID form.
pub fn order_key(order_id: u128) -> (key: String)
    ensures
        key@ == uuid_hyphenated(order_id),
{
    uuid_hyphenated_string(order_id)
}

/// The answer to an accepted order (sent with 202).
pub fn create_order_response(order_id: u128) -> (r: CreateOrderResponse)
    ensures
        r.order_id == order_id,
        r.status == OrderStatus::Created,
{
    CreateOrderResponse { order_id, status: OrderStatus::Created }
}

/// The name of the mode the service runs in.
pub fn runtime_mode(transport: EventTransport) -> (m: &'static str)
    ensures
        m@ == (match transport {
            EventTransport::Kafka => "kafka"@,
            EventTransport::InMemory => "in_memory"@,
        }),
{
    match transport {
        EventTransport::Kafka => "kafka",
        EventTransport::InMemory => "in_memory",
    }
}

/// The health-check body.
pub fn health(transport: EventTransport) -> (r: HealthResponse)
    ensures
        r.status@ == "up"@,
        r.mode@ == (match transport {
            EventTransport::Kafka => "kafka"@,
            EventTransport::InMemory => "in_memory"@,
        }),
{
    HealthResponse { status: "up", mode: runtime_mode(transport) }
}

} // verus!
