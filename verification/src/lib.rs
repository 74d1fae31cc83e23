//! Per-filter traffic accounting for packet captures.
//!
//! A [`Traffic`] registry keeps one listener per registered [`Filter`]. Each
//! listener is driven by a [`Worker`], a small state machine that turns
//! captured packet headers and control signals into running counters, and
//! publishes them into a [`StatsStore`] that readers can query at any time.
//!
//! The crate performs no capture and starts no thread of its own: whoever owns
//! the capture handle feeds packet headers in and carries the control signals.
//! Everything that decides what is counted, what is published and how a
//! listener reacts to a signal lives here, with machine-checked contracts.

pub mod history;
pub mod listener;
pub mod model;
pub mod store;
pub mod traffic;
pub mod worker;

pub use history::Event;
pub use listener::{Listener, ListenerState};
pub use model::{Action, Direction, Filter, PacketHeader, Snapshot, Totals};
pub use store::StatsStore;
pub use traffic::{Traffic, TrafficState};
pub use worker::{Phase, Polled, Step, Worker, WorkerState, PUBLISH_INTERVAL};
