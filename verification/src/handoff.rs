//! The hand-off between the driver's callback thread and the coalescer: a
//! bounded channel that the driver side never waits on. A message that
//! finds the channel full is lost and counted; the count travels to the
//! host in the next packet.

use crate::dispatch::{dispatch_tick, silent, sorted_by_ts};
use crate::input::{accepted, parse_raw, whole, NoteQueue, RawMsg, NOTE_QUEUE_CAP, RAW_QUEUE_CAP};
use crate::state::State;
use crate::packet::{encoding, packet_bytes};
use crossbeam_channel::{Receiver, Sender};
use std::sync::atomic::{AtomicU32, Ordering};
use vstd::prelude::*;

verus! {

/// The sending half of a `crossbeam_channel` channel. Nothing is known of
/// what a channel holds: other threads fill and empty it at any time.
#[verifier::external_type_specification]
#[verifier::external_body]
#[verifier::reject_recursive_types(T)]
pub struct ExSender<T>(Sender<T>);

/// The receiving half of a `crossbeam_channel` channel.
#[verifier::external_type_specification]
#[verifier::external_body]
#[verifier::reject_recursive_types(T)]
pub struct ExReceiver<T>(Receiver<T>);

/// What `Sender::capacity` returns for this half: the most messages its
/// channel holds at a time, as fixed when the channel was made, or `None`
/// for a channel without a bound.
pub uninterp spec fn sender_capacity(tx: Sender<RawMsg>) -> Option<usize>;

/// What `Receiver::capacity` returns for this half: the most messages its
/// channel holds at a time, as fixed when the channel was made, or `None`
/// for a channel without a bound.
pub uninterp spec fn receiver_capacity(rx: Receiver<RawMsg>) -> Option<usize>;

/// `crossbeam_channel::bounded`: a new channel that holds at most `cap`
/// messages, so that `capacity()` of either half is `Some(cap)`. The call
/// panics when twice the next power of two above `cap` does not fit the
/// machine word, so such capacities are left out. Nothing is claimed of
/// what the channel holds.
#[verifier::external_body]
fn bounded_raw(cap: usize) -> (ends: (Sender<RawMsg>, Receiver<RawMsg>))
    requires
        cap < 0x4000_0000,
    ensures
        sender_capacity(ends.0) == Some(cap),
        receiver_capacity(ends.1) == Some(cap),
{
    crossbeam_channel::bounded(cap)
}

/// `Sender::try_send`: hands the message to the channel if there is room
/// and returns at once either way. Whether there was room depends on the
/// other threads, so nothing is claimed of the answer; `true` stands for
/// `Ok`, `false` for a full or disconnected channel.
#[verifier::external_body]
fn try_send_raw(tx: &Sender<RawMsg>, raw: RawMsg) -> (sent: bool) {
    tx.try_send(raw).is_ok()
}

/// `Receiver::try_recv`: the next message if one is waiting, without
/// blocking. Nothing is claimed of the answer.
#[verifier::external_body]
fn try_recv_raw(rx: &Receiver<RawMsg>) -> (raw: Option<RawMsg>) {
    rx.try_recv().ok()
}

/// `Receiver::len`: how many messages were waiting when asked. Nothing is
/// claimed of the answer.
#[verifier::external_body]
fn waiting(rx: &Receiver<RawMsg>) -> (n: usize) {
    rx.len()
}

/// What became of a driver message.
#[derive(Clone, Copy, Debug, PartialEq, Eq, Structural)]
pub enum Ingest {
    /// Not taken in: the input is closed, or the message is empty or no
    /// channel-voice message. Not counted.
    Ignored,
    /// Handed to the coalescer.
    Queued,
    /// Lost because the hand-off queue was full, and counted.
    Dropped,
}

/// The outcome of a send attempt, for either answer of the channel.
pub fn send_outcome(sent: bool) -> (outcome: Ingest)
    ensures
        outcome == if sent {
            Ingest::Queued
        } else {
            Ingest::Dropped
        },
{
    if sent {
        Ingest::Queued
    } else {
        Ingest::Dropped
    }
}

/// How many messages an outcome adds to the raw-drop counter: one for a
/// message that was dropped, none for any other.
pub fn lost_by(outcome: Ingest) -> (lost: u32)
    ensures
        lost == if outcome == Ingest::Dropped {
            1u32
        } else {
            0u32
        },
{
    match outcome {
        Ingest::Dropped => 1,
        _ => 0,
    }
}

/// A new hand-off queue: a bounded channel whose two halves both report
/// the standard capacity. A send that finds that many messages waiting
/// fails instead of blocking.
pub fn raw_queue() -> (ends: (Sender<RawMsg>, Receiver<RawMsg>))
    ensures
        sender_capacity(ends.0) == Some(RAW_QUEUE_CAP),
        receiver_capacity(ends.1) == Some(RAW_QUEUE_CAP),
{
    bounded_raw(RAW_QUEUE_CAP)
}

/// The driver-facing entry point. Validates the message and tries once,
/// without waiting, to queue it; a message that does not fit adds one to
/// the raw-drop counter. Once the input is closed nothing is queued or
/// counted any more.
///
/// Whether an accepted message is queued or dropped is for the channel to
/// say; it is never ignored, and a message that is not accepted never
/// reaches the channel or the counter.
pub fn ingest(
    tx: &Sender<RawMsg>,
    dropped_raw: &AtomicU32,
    closed: bool,
    ts_us: u64,
    msg: &[u8],
) -> (outcome: Ingest)
    ensures
        outcome == Ingest::Ignored <==> closed || !accepted(msg@),
{
    if closed {
        return Ingest::Ignored;
    }
    match parse_raw(ts_us, msg) {
        None => Ingest::Ignored,
        Some(raw) => {
            let outcome = send_outcome(try_send_raw(tx, raw));
            count_lost(dropped_raw, lost_by(outcome));
            outcome
        },
    }
}

/// One step of gathering a batch: a message that the channel handed over
/// goes to the back of the batch and there may be more; when the channel
/// had none, the batch is complete as it is.
pub fn gather(batch: &mut Vec<RawMsg>, got: Option<RawMsg>) -> (more: bool)
    ensures
        more == got is Some,
        final(batch)@ == match got {
            Some(raw) => old(batch)@.push(raw),
            None => old(batch)@,
        },
{
    match got {
        Some(raw) => {
            batch.push(raw);
            true
        },
        None => false,
    }
}

/// Gathers what the coalescer handles in one pass: the message it was
/// woken with, then the messages that were already waiting behind it, in
/// order, without blocking.
pub fn drain_available(rx: &Receiver<RawMsg>, first: RawMsg) -> (batch: Vec<RawMsg>)
    ensures
        batch@.len() >= 1,
        batch@[0] == first,
{
    let mut batch: Vec<RawMsg> = Vec::new();
    batch.push(first);
    let n: usize = waiting(rx);
    let mut i: usize = 0;
    while i < n
        invariant
            batch@.len() >= 1,
            batch@[0] == first,
        decreases n - i,
    {
        let more: bool = gather(&mut batch, try_recv_raw(rx));
        if !more {
            break ;
        }
        i = i + 1;
    }
    batch
}

/// Adds `lost` to a loss counter. Nothing is added, and the counter is not
/// touched, when nothing was lost.
pub fn count_lost(counter: &AtomicU32, lost: u32) {
    if lost != 0 {
        counter.fetch_add(lost, Ordering::Relaxed);
    }
}

/// One tick of the dispatcher against the live counters: swaps both loss
/// counters for zero and dispatches with the counts that were read. The
/// counts are returned beside the packet, raw drops first, and the packet
/// is exactly the packet of `dispatch_tick` for those counts.
pub fn tick(
    state: &mut State,
    notes: &mut NoteQueue,
    dropped_raw: &AtomicU32,
    dropped_note: &AtomicU32,
    dispatch_ts_us: u64,
) -> (out: (u32, u32, Option<Vec<u8>>))
    ensures
        whole(final(state)@, final(notes)@, 0) == whole(old(state)@, old(notes)@, out.1).drained(),
        out.2 is None <==> silent(whole(old(state)@, old(notes)@, out.1), out.0),
        out.2 is Some ==> out.2->Some_0@ == encoding(
            sorted_by_ts(whole(old(state)@, old(notes)@, out.1).records()),
            dispatch_ts_us,
            out.0,
            out.1,
            0,
        ),
        out.2 is Some && old(notes)@.len() <= NOTE_QUEUE_CAP ==> out.2->Some_0@ == packet_bytes(
            sorted_by_ts(whole(old(state)@, old(notes)@, out.1).records()),
            dispatch_ts_us,
            out.0,
            out.1,
            0,
        ),
{
    let lost_raw: u32 = dropped_raw.swap(0, Ordering::Relaxed);
    let lost_note: u32 = dropped_note.swap(0, Ordering::Relaxed);
    let packet = dispatch_tick(state, notes, dispatch_ts_us, lost_raw, lost_note);
    (lost_raw, lost_note, packet)
}

} // verus!
