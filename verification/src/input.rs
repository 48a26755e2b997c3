//! Message handling between the driver and dispatch: what a raw driver
//! message must look like to be taken in, and how an accepted message is
//! routed, by the high nibble of its status byte, to the note queue or to a
//! parameter slot.
//!
//! The store, the note queue and the count of lost edges are three values
//! of their own, so that a caller can guard each separately. `SharedView`
//! is the three seen together; the rules and the laws are stated on it.

use crate::packet::{Record, KIND_NOTE};
use crate::state::{
    bend_of, lemma_pending_kinds, lemma_pending_len, update_cc, update_ch_pressure,
    update_pitch_bend, update_poly_pressure, update_program, State, StateView, INDICES,
};
use std::collections::VecDeque;
use vstd::prelude::*;

verus! {

/// Capacity of the hand-off queue between the driver and the coalescer.
pub const RAW_QUEUE_CAP: usize = 4096;

/// Capacity of the note-edge queue between the coalescer and dispatch.
pub const NOTE_QUEUE_CAP: usize = 4096;

/// A channel-voice message as the driver delivered it.
#[derive(Clone, Copy, Debug, PartialEq, Eq, Structural)]
pub struct RawMsg {
    pub ts_us: u64,
    pub status: u8,
    pub data1: u8,
    pub data2: u8,
    pub len: u8,
}

/// A note going on or off. Every edge counts: edges are never merged.
#[derive(Clone, Copy, Debug, PartialEq, Eq, Structural)]
pub struct NoteEdge {
    pub ts_us: u64,
    pub channel: u8,
    pub note: u8,
    pub velocity: u8,
    pub on: bool,
}

/// Whether a driver message is taken in: it is not empty and its status
/// byte is a channel-voice status, 0x80 to 0xEF.
pub open spec fn accepted(msg: Seq<u8>) -> bool {
    msg.len() > 0 && 0x80 <= msg[0] < 0xF0
}

/// The raw message made from an accepted driver message: up to two data
/// bytes, a missing one read as 0, and the length cut to a byte.
pub open spec fn raw_of(ts_us: u64, msg: Seq<u8>) -> RawMsg {
    RawMsg {
        ts_us,
        status: msg[0],
        data1: if msg.len() > 1 {
            msg[1]
        } else {
            0
        },
        data2: if msg.len() > 2 {
            msg[2]
        } else {
            0
        },
        len: if msg.len() > 255 {
            255
        } else {
            msg.len() as u8
        },
    }
}

/// Validates a driver message. System and realtime bytes and empty
/// messages give `None`.
pub fn parse_raw(ts_us: u64, msg: &[u8]) -> (out: Option<RawMsg>)
    ensures
        out == if accepted(msg@) {
            Some(raw_of(ts_us, msg@))
        } else {
            None
        },
{
    let len: usize = msg.len();
    if len == 0 {
        return None;
    }
    let status: u8 = msg[0];
    if status < 0x80 || status >= 0xF0 {
        return None;
    }
    let data1: u8 = if len > 1 {
        msg[1]
    } else {
        0
    };
    let data2: u8 = if len > 2 {
        msg[2]
    } else {
        0
    };
    let cut: u8 = if len > 255 {
        255
    } else {
        len as u8
    };
    Some(RawMsg { ts_us, status, data1, data2, len: cut })
}

/// The counter one loss later. It stops at its largest value rather than
/// start again from zero.
pub open spec fn one_more(count: u32) -> u32 {
    if count == u32::MAX {
        count
    } else {
        (count + 1) as u32
    }
}

/// The record that reports a note edge: the note in `a`, the velocity in
/// `b`, and 1 for on or 0 for off in `extra`.
pub open spec fn note_record(edge: NoteEdge) -> Record {
    Record {
        ts_us: edge.ts_us,
        kind: KIND_NOTE,
        channel: edge.channel,
        a: edge.note,
        b: edge.velocity,
        v16: 0,
        extra: if edge.on {
            1
        } else {
            0
        },
    }
}

/// The note edge that a raw message carries, if it is a note message:
/// status 0x8n or 0x9n and at least three bytes. Note off is always an edge
/// to off; note on is an edge to on unless its velocity is zero. The data
/// bytes are taken as they are.
pub open spec fn edge_in(raw: RawMsg) -> Option<NoteEdge> {
    let kind = raw.status / 16;
    if (kind == 0x8 || kind == 0x9) && raw.len >= 3 {
        Some(
            NoteEdge {
                ts_us: raw.ts_us,
                channel: raw.status % 16,
                note: raw.data1,
                velocity: raw.data2,
                on: kind == 0x9 && raw.data2 != 0,
            },
        )
    } else {
        None
    }
}

/// The store after one raw message. The high nibble of the status byte
/// picks the parameter and the low nibble the channel. Polyphonic
/// pressure, controller and pitch bend need three bytes, program and
/// channel pressure two; a shorter message is malformed and changes
/// nothing, and so does any other status, a note message among them.
///
/// A controller number or a pressure's note number that lies outside the
/// 128 slots of a channel addresses nothing, and a pitch bend is made of
/// two 7-bit bytes: a message that breaks either rule is malformed too.
/// Values are stored as they come.
pub open spec fn store_apply(state: StateView, raw: RawMsg) -> StateView {
    let ch = (raw.status % 16) as int;
    let kind = raw.status / 16;
    let two = raw.len >= 2;
    let three = raw.len >= 3;
    if kind == 0xA && three && raw.data1 < INDICES {
        state.write_poly_pressure(ch, raw.data1 as int, raw.data2 as int, raw.ts_us)
    } else if kind == 0xB && three && raw.data1 < INDICES {
        state.write_cc(ch, raw.data1 as int, raw.data2 as int, raw.ts_us)
    } else if kind == 0xC && two {
        state.write_program(ch, raw.data1 as int, raw.ts_us)
    } else if kind == 0xD && two {
        state.write_ch_pressure(ch, raw.data1 as int, raw.ts_us)
    } else if kind == 0xE && three && raw.data1 < 0x80 && raw.data2 < 0x80 {
        state.write_pitch_bend(ch, bend_of(raw.data1, raw.data2), raw.ts_us)
    } else {
        state
    }
}

/// The store after a run of raw messages, applied in order.
pub open spec fn store_after(state: StateView, raws: Seq<RawMsg>) -> StateView
    decreases raws.len(),
{
    if raws.len() == 0 {
        state
    } else {
        store_apply(store_after(state, raws.drop_last()), raws.last())
    }
}

/// The note queue after one more edge: the edge goes to the back, and a
/// full queue first loses its oldest edge.
pub open spec fn pushed(notes: Seq<NoteEdge>, edge: NoteEdge) -> Seq<NoteEdge> {
    if notes.len() >= NOTE_QUEUE_CAP {
        notes.drop_first().push(edge)
    } else {
        notes.push(edge)
    }
}

/// The count of lost edges after a push onto `notes`: one more when the
/// queue was full.
pub open spec fn counted(notes: Seq<NoteEdge>, dropped: u32) -> u32 {
    if notes.len() >= NOTE_QUEUE_CAP {
        one_more(dropped)
    } else {
        dropped
    }
}

/// The note queue and the count of lost edges after a run of raw
/// messages: the note messages among them are pushed in order.
pub open spec fn notes_after(notes: Seq<NoteEdge>, dropped: u32, raws: Seq<RawMsg>) -> (
    Seq<NoteEdge>,
    u32,
)
    decreases raws.len(),
{
    if raws.len() == 0 {
        (notes, dropped)
    } else {
        let before = notes_after(notes, dropped, raws.drop_last());
        match edge_in(raws.last()) {
            Some(edge) => (pushed(before.0, edge), counted(before.0, before.1)),
            None => before,
        }
    }
}

/// One input as contracts see it: the parameter store, the note queue and
/// the count of note edges lost since the last tick. The three are kept
/// apart, each under its own guard; this is what they hold together.
pub struct SharedView {
    pub state: StateView,
    pub notes: Seq<NoteEdge>,
    pub dropped_note: u32,
}

/// The three parts of an input, seen as one.
pub open spec fn whole(state: StateView, notes: Seq<NoteEdge>, dropped_note: u32) -> SharedView {
    SharedView { state, notes, dropped_note }
}

impl SharedView {
    /// The input after one more edge: the edge goes to the back of the
    /// queue; a full queue first loses its oldest edge, which is counted.
    pub open spec fn push_note(self, edge: NoteEdge) -> SharedView {
        SharedView {
            notes: pushed(self.notes, edge),
            dropped_note: counted(self.notes, self.dropped_note),
            ..self
        }
    }

    /// The effect of one raw message: a note message queues its edge, any
    /// other message goes to the store.
    pub open spec fn apply(self, raw: RawMsg) -> SharedView {
        match edge_in(raw) {
            Some(edge) => self.push_note(edge),
            None => SharedView { state: store_apply(self.state, raw), ..self },
        }
    }

    /// The effect of a run of raw messages, applied in order.
    pub open spec fn apply_all(self, raws: Seq<RawMsg>) -> SharedView
        decreases raws.len(),
    {
        if raws.len() == 0 {
            self
        } else {
            self.apply_all(raws.drop_last()).apply(raws.last())
        }
    }

    /// The queue after a run of note edges, pushed in order.
    pub open spec fn push_notes(self, edges: Seq<NoteEdge>) -> SharedView
        decreases edges.len(),
    {
        if edges.len() == 0 {
            self
        } else {
            self.push_notes(edges.drop_last()).push_note(edges.last())
        }
    }

    /// What a tick reports, before sorting: every queued note edge, oldest
    /// first, then one record per dirty parameter.
    pub open spec fn records(self) -> Seq<Record> {
        self.notes.map_values(|e: NoteEdge| note_record(e)) + self.state.pending()
    }

    /// What a tick leaves behind: no queued edge, no dirty mark, no loss
    /// counted; values and timestamps stay.
    pub open spec fn drained(self) -> SharedView {
        SharedView { state: self.state.cleared(), notes: Seq::empty(), dropped_note: 0 }
    }

    /// The note queue holds no more than its capacity.
    pub open spec fn bounded(self) -> bool {
        self.notes.len() <= NOTE_QUEUE_CAP
    }

    /// Nothing queued, nothing dirty, nothing lost.
    pub open spec fn idle(self) -> bool {
        self.notes.len() == 0 && self.state.clean() && self.dropped_note == 0
    }
}

/// The queue of note edges between the coalescer and dispatch.
pub struct NoteQueue {
    edges: VecDeque<NoteEdge>,
}

impl View for NoteQueue {
    type V = Seq<NoteEdge>;

    closed spec fn view(&self) -> Seq<NoteEdge> {
        self.edges@
    }
}

impl NoteQueue {
    /// An empty queue.
    pub fn new() -> (queue: NoteQueue)
        ensures
            queue@ == Seq::<NoteEdge>::empty(),
    {
        NoteQueue { edges: VecDeque::with_capacity(NOTE_QUEUE_CAP) }
    }

    /// How many edges are queued.
    pub fn len(&self) -> (n: usize)
        ensures
            n == self@.len(),
    {
        self.edges.len()
    }

    /// Empties the queue into `records`, oldest edge first, one note
    /// record for each edge.
    pub fn drain_into(&mut self, records: &mut Vec<Record>)
        ensures
            final(records)@ == old(records)@ + old(self)@.map_values(|e: NoteEdge| note_record(e)),
            final(self)@ == Seq::<NoteEdge>::empty(),
    {
        let ghost queued = self.edges@;
        let ghost base = records@;
        let ghost report = |e: NoteEdge| note_record(e);
        let ghost mut done: int = 0;
        loop
            invariant
                queued == old(self)@,
                base == old(records)@,
                report == |e: NoteEdge| note_record(e),
                0 <= done <= queued.len(),
                self.edges@ == queued.skip(done),
                records@ == base + queued.take(done).map_values(report),
            ensures
                self.edges@.len() == 0,
                records@ == base + queued.map_values(report),
            decreases self.edges@.len(),
        {
            match self.edges.pop_front() {
                Some(edge) => {
                    records.push(
                        Record {
                            ts_us: edge.ts_us,
                            kind: KIND_NOTE,
                            channel: edge.channel,
                            a: edge.note,
                            b: edge.velocity,
                            v16: 0,
                            extra: if edge.on {
                                1
                            } else {
                                0
                            },
                        },
                    );
                    proof {
                        assert(edge == queued[done]);
                        assert(self.edges@ =~= queued.skip(done + 1));
                        assert(queued.take(done + 1).map_values(report) =~= queued.take(
                            done,
                        ).map_values(report).push(report(edge)));
                        assert(records@ =~= base + queued.take(done + 1).map_values(report));
                        done = done + 1;
                    }
                },
                None => {
                    proof {
                        assert(queued.take(done) =~= queued);
                    }
                    break ;
                },
            }
        }
        proof {
            assert(self.edges@ =~= Seq::<NoteEdge>::empty());
        }
    }
}

/// Queues a note edge. When the queue is full the oldest edge is dropped
/// and the drop is added to `dropped_note`; the new edge is always queued.
pub fn push_note(
    notes: &mut NoteQueue,
    dropped_note: &mut u32,
    ts_us: u64,
    channel: u8,
    note: u8,
    velocity: u8,
    on: bool,
)
    ensures
        final(notes)@ == pushed(old(notes)@, NoteEdge { ts_us, channel, note, velocity, on }),
        *final(dropped_note) == counted(old(notes)@, *old(dropped_note)),
        old(notes)@.len() <= NOTE_QUEUE_CAP ==> final(notes)@.len() <= NOTE_QUEUE_CAP,
{
    let edge = NoteEdge { ts_us, channel, note, velocity, on };
    if notes.edges.len() >= NOTE_QUEUE_CAP {
        notes.edges.pop_front();
        if *dropped_note < u32::MAX {
            *dropped_note = *dropped_note + 1;
        }
    }
    notes.edges.push_back(edge);
    proof {
        assert(notes@ =~= pushed(old(notes)@, edge));
    }
}

/// The note edge that a raw message carries, if it is a note message.
pub fn edge_of(raw: RawMsg) -> (edge: Option<NoteEdge>)
    ensures
        edge == edge_in(raw),
{
    let kind: u8 = raw.status / 16;
    if (kind == 0x8 || kind == 0x9) && raw.len >= 3 {
        Some(
            NoteEdge {
                ts_us: raw.ts_us,
                channel: raw.status % 16,
                note: raw.data1,
                velocity: raw.data2,
                on: kind == 0x9 && raw.data2 != 0,
            },
        )
    } else {
        None
    }
}

/// Applies one raw message to the store: a well-formed parameter message
/// is written latest value wins, anything else is ignored and not counted.
pub fn handle_param(raw: RawMsg, state: &mut State)
    ensures
        final(state)@ == store_apply(old(state)@, raw),
{
    let kind: u8 = raw.status / 16;
    let channel: u8 = raw.status % 16;
    let two: bool = raw.len >= 2;
    let three: bool = raw.len >= 3;
    if kind == 0xA {
        if three && raw.data1 < 0x80 {
            update_poly_pressure(state, channel, raw.data1, raw.data2, raw.ts_us);
        }
    } else if kind == 0xB {
        if three && raw.data1 < 0x80 {
            update_cc(state, channel, raw.data1, raw.data2, raw.ts_us);
        }
    } else if kind == 0xC {
        if two {
            update_program(state, channel, raw.data1, raw.ts_us);
        }
    } else if kind == 0xD {
        if two {
            update_ch_pressure(state, channel, raw.data1, raw.ts_us);
        }
    } else if kind == 0xE {
        if three && raw.data1 < 0x80 && raw.data2 < 0x80 {
            update_pitch_bend(state, channel, raw.data1, raw.data2, raw.ts_us);
        }
    }
}

/// Applies one raw message to an input: a note message queues its edge,
/// a parameter message is written to the store, anything malformed is
/// ignored and not counted.
pub fn handle_raw(raw: RawMsg, state: &mut State, notes: &mut NoteQueue, dropped_note: &mut u32)
    ensures
        whole(final(state)@, final(notes)@, *final(dropped_note)) == whole(
            old(state)@,
            old(notes)@,
            *old(dropped_note),
        ).apply(raw),
        old(notes)@.len() <= NOTE_QUEUE_CAP ==> final(notes)@.len() <= NOTE_QUEUE_CAP,
{
    match edge_of(raw) {
        Some(edge) => {
            push_note(
                notes,
                dropped_note,
                edge.ts_us,
                edge.channel,
                edge.note,
                edge.velocity,
                edge.on,
            );
        },
        None => {
            handle_param(raw, state);
        },
    }
}

/// Applies the note messages of a batch, in order, to the note queue, and
/// adds the edges lost on the way to `dropped_note`. This is all of the
/// batch that concerns the queue, so that the store's guard need not be
/// held meanwhile.
pub fn handle_notes(batch: &Vec<RawMsg>, notes: &mut NoteQueue, dropped_note: &mut u32)
    ensures
        (final(notes)@, *final(dropped_note)) == notes_after(
            old(notes)@,
            *old(dropped_note),
            batch@,
        ),
        old(notes)@.len() <= NOTE_QUEUE_CAP ==> final(notes)@.len() <= NOTE_QUEUE_CAP,
{
    let n: usize = batch.len();
    let mut i: usize = 0;
    while i < n
        invariant
            i <= n,
            n == batch@.len(),
            (notes@, *dropped_note) == notes_after(
                old(notes)@,
                *old(dropped_note),
                batch@.take(i as int),
            ),
            old(notes)@.len() <= NOTE_QUEUE_CAP ==> notes@.len() <= NOTE_QUEUE_CAP,
        decreases n - i,
    {
        proof {
            let next = batch@.take(i + 1);
            assert(next.drop_last() =~= batch@.take(i as int));
            assert(next.last() == batch@[i as int]);
        }
        match edge_of(batch[i]) {
            Some(edge) => {
                push_note(
                    notes,
                    dropped_note,
                    edge.ts_us,
                    edge.channel,
                    edge.note,
                    edge.velocity,
                    edge.on,
                );
            },
            None => {},
        }
        i = i + 1;
    }
    proof {
        assert(batch@.take(n as int) =~= batch@);
    }
}

/// Applies the parameter messages of a batch, in order, to the store.
/// This is all of the batch that concerns the store, so that the note
/// queue's guard need not be held meanwhile.
pub fn handle_params(batch: &Vec<RawMsg>, state: &mut State)
    ensures
        final(state)@ == store_after(old(state)@, batch@),
{
    let n: usize = batch.len();
    let mut i: usize = 0;
    while i < n
        invariant
            i <= n,
            n == batch@.len(),
            state@ == store_after(old(state)@, batch@.take(i as int)),
        decreases n - i,
    {
        proof {
            let next = batch@.take(i + 1);
            assert(next.drop_last() =~= batch@.take(i as int));
            assert(next.last() == batch@[i as int]);
        }
        handle_param(batch[i], state);
        i = i + 1;
    }
    proof {
        assert(batch@.take(n as int) =~= batch@);
    }
}

/// Handling a batch part by part comes to the same as handling it message
/// by message: a note message leaves the store alone and any other
/// message leaves the queue alone.
pub proof fn lemma_batch_by_parts(v: SharedView, raws: Seq<RawMsg>)
    ensures
        v.apply_all(raws) == whole(
            store_after(v.state, raws),
            notes_after(v.notes, v.dropped_note, raws).0,
            notes_after(v.notes, v.dropped_note, raws).1,
        ),
    decreases raws.len(),
{
    if raws.len() > 0 {
        lemma_batch_by_parts(v, raws.drop_last());
    }
}

/// No note edge is merged with another or lost unaccounted: after any run
/// of pushes, the edges queued and the edges counted as dropped add up to
/// what was queued and counted before plus what was pushed, and the queue
/// holds, in order of arrival, exactly the edges that were not dropped.
/// The count is exact as long as the counter has not reached its largest
/// value.
pub proof fn lemma_note_accounting(v: SharedView, edges: Seq<NoteEdge>)
    requires
        v.bounded(),
        v.dropped_note + edges.len() <= u32::MAX,
    ensures
        v.push_notes(edges).bounded(),
        v.push_notes(edges).state == v.state,
        v.push_notes(edges).dropped_note >= v.dropped_note,
        v.push_notes(edges).notes.len() + v.push_notes(edges).dropped_note == v.notes.len()
            + v.dropped_note + edges.len(),
        v.push_notes(edges).notes == (v.notes + edges).skip(
            v.push_notes(edges).dropped_note - v.dropped_note,
        ),
    decreases edges.len(),
{
    if edges.len() == 0 {
        assert((v.notes + edges).skip(0) =~= v.notes);
    } else {
        let init = edges.drop_last();
        lemma_note_accounting(v, init);
        let mid = v.push_notes(init);
        let w = v.push_notes(edges);
        let d = mid.dropped_note - v.dropped_note;
        assert(v.notes + edges =~= (v.notes + init).push(edges.last()));
        if mid.notes.len() >= NOTE_QUEUE_CAP {
            assert(w.notes =~= (v.notes + edges).skip(d + 1));
        } else {
            assert(w.notes =~= (v.notes + edges).skip(d));
        }
    }
}

/// The note records among `rs`, in their order.
pub open spec fn note_records(rs: Seq<Record>) -> Seq<Record> {
    rs.filter(|r: Record| r.kind == KIND_NOTE)
}

/// A filter that every record passes changes nothing.
proof fn lemma_filter_keeps_all(rs: Seq<Record>, pred: spec_fn(Record) -> bool)
    requires
        forall|i: int| 0 <= i < rs.len() ==> pred(#[trigger] rs[i]),
    ensures
        rs.filter(pred) == rs,
    decreases rs.len(),
{
    if rs.len() == 0 {
        assert(rs =~= Seq::<Record>::empty());
        Seq::<Record>::empty().lemma_filter_len(pred);
        assert(rs.filter(pred) =~= rs);
    } else {
        lemma_filter_keeps_all(rs.drop_last(), pred);
        rs.drop_last().lemma_filter_push(rs.last(), pred);
        assert(rs =~= rs.drop_last().push(rs.last()));
    }
}

/// A filter that no record passes leaves nothing.
proof fn lemma_filter_keeps_none(rs: Seq<Record>, pred: spec_fn(Record) -> bool)
    requires
        forall|i: int| 0 <= i < rs.len() ==> !pred(#[trigger] rs[i]),
    ensures
        rs.filter(pred).len() == 0,
    decreases rs.len(),
{
    if rs.len() == 0 {
        rs.lemma_filter_len(pred);
    } else {
        lemma_filter_keeps_none(rs.drop_last(), pred);
        rs.drop_last().lemma_filter_push(rs.last(), pred);
        assert(rs =~= rs.drop_last().push(rs.last()));
    }
}

/// A tick reports every queued note edge as one note record and nothing
/// else as a note record.
pub proof fn lemma_one_record_per_edge(v: SharedView)
    ensures
        note_records(v.records()) == v.notes.map_values(|e: NoteEdge| note_record(e)),
        note_records(v.records()).len() == v.notes.len(),
{
    let pred = |r: Record| r.kind == KIND_NOTE;
    let head = v.notes.map_values(|e: NoteEdge| note_record(e));
    let tail = v.state.pending();
    lemma_pending_kinds(v.state, 16);
    lemma_filter_keeps_all(head, pred);
    lemma_filter_keeps_none(tail, pred);
    Seq::filter_distributes_over_add(head, tail, pred);
    assert(head.filter(pred) + tail.filter(pred) =~= head);
}

/// Every note message is either reported or counted as dropped: of the
/// edges queued before and pushed since, the next tick reports as many
/// note records as were not counted as dropped meanwhile. The count is
/// exact as long as the counter has not reached its largest value.
pub proof fn lemma_notes_reported_or_counted(v: SharedView, edges: Seq<NoteEdge>)
    requires
        v.bounded(),
        v.dropped_note + edges.len() <= u32::MAX,
    ensures
        note_records(v.push_notes(edges).records()).len() == v.notes.len() + edges.len() - (
        v.push_notes(edges).dropped_note - v.dropped_note),
{
    lemma_note_accounting(v, edges);
    lemma_one_record_per_edge(v.push_notes(edges));
}

/// The note edges that a run of raw messages carries, in order.
pub open spec fn edges_in(raws: Seq<RawMsg>) -> Seq<NoteEdge>
    decreases raws.len(),
{
    if raws.len() == 0 {
        Seq::empty()
    } else {
        match edge_in(raws.last()) {
            Some(edge) => edges_in(raws.drop_last()).push(edge),
            None => edges_in(raws.drop_last()),
        }
    }
}

/// To the note queue and its count, a run of raw messages is the run of
/// edges it carries: every note message of three bytes or more pushes one
/// edge, whatever its data bytes hold, and no other message pushes any.
pub proof fn lemma_messages_push_their_edges(v: SharedView, raws: Seq<RawMsg>)
    ensures
        v.apply_all(raws).notes == v.push_notes(edges_in(raws)).notes,
        v.apply_all(raws).dropped_note == v.push_notes(edges_in(raws)).dropped_note,
    decreases raws.len(),
{
    if raws.len() > 0 {
        let init = raws.drop_last();
        lemma_messages_push_their_edges(v, init);
        match edge_in(raws.last()) {
            Some(edge) => {
                let es = edges_in(raws);
                assert(es.drop_last() =~= edges_in(init));
                assert(es.last() == edge);
            },
            None => {},
        }
    }
}

/// Every note message is either reported or counted as dropped: of the
/// edges queued before and the note messages handled since, the next tick
/// reports as many note records as were not counted as dropped meanwhile.
/// The count is exact as long as the counter has not reached its largest
/// value.
pub proof fn lemma_note_messages_reported_or_counted(v: SharedView, raws: Seq<RawMsg>)
    requires
        v.bounded(),
        v.dropped_note + edges_in(raws).len() <= u32::MAX,
    ensures
        v.apply_all(raws).bounded(),
        v.apply_all(raws).dropped_note >= v.dropped_note,
        note_records(v.apply_all(raws).records()).len() == v.notes.len() + edges_in(raws).len()
            - (v.apply_all(raws).dropped_note - v.dropped_note),
{
    lemma_messages_push_their_edges(v, raws);
    lemma_note_accounting(v, edges_in(raws));
    lemma_one_record_per_edge(v.apply_all(raws));
}

/// A bounded queue and the store together never report more records than
/// a packet's count field can say.
pub proof fn lemma_records_fit(v: SharedView)
    requires
        v.bounded(),
    ensures
        v.records().len() <= NOTE_QUEUE_CAP + 16 * 259,
        v.records().len() <= u32::MAX,
{
    lemma_pending_len(v.state, 16);
}

} // verus!
