//! What the HTTP and NATS transports decide between their network calls.
pub mod http;
pub mod nats;
