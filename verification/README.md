# system_design

Verified building blocks of a handful of backend services, written in Verus.

- `src/limiter` — fixed-window and sliding-window-log rate limiters, and the
  window bookkeeping of the sliding-window counter. Proved: each limiter
  admits at most `limit` requests per window (for the log fed requests in time order, in any
  interval of the window's length); for a fresh fixed-window limiter fed requests in time
  order, its count is the number of admitted requests in its current window.
- `src/ring.rs` — consistent-hash ring with virtual nodes. Proved: a key is
  served by the first position at or after its hash (wrapping around); adding
  a server moves keys only to it; removing a server leaves the other keys
  where they were; removing a server undoes adding it.
- `src/shortener` — URL shortener: Redis keys, request validation, short
  codes, the in-memory database, and the decisions after each cache, database
  and rate-limit step.
- `src/orders` — order service: validation, "order.created" events, and the
  order status store.
- `src/retry.rs` — retry state machine with capped exponential backoff and
  jitter; the delay is the backoff plus the drawn jitter. Proved: at most `max_retries` retries; non-retryable errors end at once.
- `src/links.rs` — link extraction from HTML and link classification.

`app/` holds the programs: the demos, the HTTP services (actix-web, axum),
Redis, Kafka and the HTTP client, and the limiters that compute with `f64`.
