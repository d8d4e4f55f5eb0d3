//! A miniature single-node partitioned commit log.
//!
//! The heart of the crate is [`store::LogStore`], a per-key append-only log
//! with consumer-style committed-offset tracking: one independent log per
//! string key, dense zero-based offsets, a ranged read from an offset, and a
//! committed-offset marker kept separately from the log itself. Every
//! operation is specified against the abstract [`store::StoreView`], and
//! [`laws`] proves the properties that hold across operations.
//!
//! [`dispatch::Handler`] maps each decoded workload request onto store
//! calls and assembles the reply; [`echo::Handler`] holds the state of the
//! companion echo/broadcast node. Transport, encoding and request
//! correlation live outside this crate: the surrounding runtime hands in
//! plain decoded values and sends the plain replies back.

pub mod dispatch;
pub mod echo;
pub mod laws;
pub mod store;
