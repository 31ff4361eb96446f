//! Core of a live telemetry aggregation service.
//!
//! Clients report coordinate pairs over a connectionless datagram protocol.
//! The service keeps an in-memory registry of the most recent pair per
//! client, evicts clients that stop reporting, and publishes a snapshot of
//! the registry after every processed event.  This crate holds the verified
//! logic: the drift-correcting interval timer, the payload decoder, the
//! registry, and the event multiplexer.  Socket and channel I/O, and the
//! numeric interpretation of coordinate tokens, live with the embedding
//! program, which hands the outcomes in as plain values.

pub mod interval;
pub mod registry;
pub mod ingest;
pub mod server;
