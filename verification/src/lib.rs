//! Verified building blocks of a set of backend system-design services:
//! rate limiters, a consistent-hash ring, a URL shortener, an order
//! pipeline, a retry policy and a link extractor.
pub mod ids;
pub mod limiter;
pub mod links;
pub mod orders;
pub mod retry;
pub mod ring;
pub mod shortener;
pub mod text;
