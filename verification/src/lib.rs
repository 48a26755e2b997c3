//! Coalescing MIDI input bridge.
//!
//! A driver delivers MIDI messages on a thread of its own, at any time. The
//! bridge hands the host, at a fixed rate, a packet with what changed since
//! the last one: the latest value of every continuous parameter that
//! changed, every note edge, and how many messages were lost on the way.
//!
//! The stages, in the order a message passes them:
//!
//! - [`handoff`]: the driver-facing entry point and the bounded queue
//!   behind it, which the driver never waits on;
//! - [`input`]: routing of a queued message to the note queue or to a
//!   parameter slot;
//! - [`state`] and [`bitset`]: the parameter store, latest value wins, with
//!   its dirty marks;
//! - [`dispatch`]: one tick of the dispatcher and the schedule of ticks;
//! - [`packet`]: the byte layout of what the host receives.
//!
//! [`handles`] keeps the table that names open connections by number.
//!
//! Threads, locks, clocks and the device itself are the caller's business:
//! every function here works on values it is given. The parameter store
//! and the note queue are separate values, so that each can have a lock of
//! its own, and losses are counted in numbers that the caller adds to
//! counters that need no lock.

pub mod bitset;
pub mod dispatch;
pub mod handles;
pub mod handoff;
pub mod input;
pub mod packet;
pub mod state;
