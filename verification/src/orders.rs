//! Order service: accepts orders, publishes an "order.created" event for
//! each, and tracks every order's status as the events are consumed. The
//! HTTP server and the event channel belong to the caller; this module holds
//! the validation, the event construction and the status store.
use vstd::prelude::*;

pub mod models;
pub mod store;

verus! {

/// The Kafka topic that carries the order events.
pub const ORDERS_TOPIC: &'static str = "orders";

/// How order events travel from the producer to the consumer.
#[derive(Debug, Clone, Copy, PartialEq, Eq, Structural)]
pub enum EventTransport {
    InMemory,
    Kafka,
}

/// Server settings.
pub struct AppConfig {
    pub http_addr: String,
    pub kafka_bootstrap_servers: String,
}

impl AppConfig {
    /// The settings, given the values of `HTTP_ADDR` and
    /// `KAFKA_BOOTSTRAP_SERVERS` where they are set; they default to
    /// `127.0.0.1:8080` and `127.0.0.1:9092`.
    pub fn from_values(http_addr: Option<String>, kafka_bootstrap_servers: Option<String>) -> (c:
        AppConfig)
        ensures
            match http_addr {
                Some(a) => c.http_addr@ == a@,
                None => c.http_addr@ == "127.0.0.1:8080"@,
            },
            match kafka_bootstrap_servers {
                Some(k) => c.kafka_bootstrap_servers@ == k@,
                None => c.kafka_bootstrap_servers@ == "127.0.0.1:9092"@,
            },
    {
        let http_addr = match http_addr {
            Some(a) => a,
            None => String::from_str("127.0.0.1:8080"),
        };
        let kafka_bootstrap_servers = match kafka_bootstrap_servers {
            Some(k) => k,
            None => String::from_str("127.0.0.1:9092"),
        };
        AppConfig { http_addr, kafka_bootstrap_servers }
    }
}

} // verus!
