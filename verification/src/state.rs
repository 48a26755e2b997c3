//! Coalescing state store: the latest value of every continuous parameter,
//! when it last changed, and whether it changed since the last dispatch.
//!
//! Controllers and polyphonic pressure are 16 x 128 grids whose dirty marks
//! are 128-bit sets (two 64-bit words per channel); pitch bend, channel
//! pressure and program are one slot per channel with a boolean mark.

use crate::bitset::{
    bit, collect_bitset, lemma_no_bit_in_zero, lemma_set_bits_below, set_bit, set_bits, test_bit,
};
use crate::packet::{Record, KIND_CC, KIND_CH_PRESS, KIND_PB, KIND_POLY_PRESS, KIND_PROG};
use vstd::prelude::*;

verus! {

/// Number of MIDI channels.
pub const CHANNELS: usize = 16;

/// Number of controllers, and of notes, on one channel.
pub const INDICES: usize = 128;

/// Raw 14-bit pitch-bend value that means "no bend".
pub const BEND_CENTER: i16 = 8192;

/// One parameter slot as contracts see it. A slot that was never written
/// holds no value yet: its `value` and `ts_us` mean nothing until
/// `written` is set.
pub struct Slot {
    pub value: int,
    pub ts_us: u64,
    pub dirty: bool,
    pub written: bool,
}

impl Slot {
    /// Latest value wins: writing the value that the slot holds changes
    /// nothing, not even the timestamp; any other write, the first write
    /// to a slot among them, stores the value with its timestamp and marks
    /// the slot dirty.
    pub open spec fn write(self, value: int, ts_us: u64) -> Slot {
        if self.written && self.value == value {
            self
        } else {
            Slot { value, ts_us, dirty: true, written: true }
        }
    }

    /// The slot after dispatch has read it.
    pub open spec fn cleared(self) -> Slot {
        Slot { value: self.value, ts_us: self.ts_us, dirty: false, written: self.written }
    }
}

/// The slot every parameter starts in: never written, clean.
pub open spec fn empty_slot() -> Slot {
    Slot { value: 0, ts_us: 0, dirty: false, written: false }
}

/// The store as contracts see it: grids are indexed `[channel][index]`,
/// per-channel parameters `[channel]`.
pub struct StateView {
    pub cc: Seq<Seq<Slot>>,
    pub pitch_bend: Seq<Slot>,
    pub ch_pressure: Seq<Slot>,
    pub program: Seq<Slot>,
    pub poly_pressure: Seq<Seq<Slot>>,
}

impl StateView {
    /// Sixteen channels everywhere, 128 slots per channel in the grids.
    pub open spec fn shaped(self) -> bool {
        &&& self.cc.len() == CHANNELS
        &&& self.poly_pressure.len() == CHANNELS
        &&& self.pitch_bend.len() == CHANNELS
        &&& self.ch_pressure.len() == CHANNELS
        &&& self.program.len() == CHANNELS
        &&& forall|c: int| 0 <= c < CHANNELS ==> (#[trigger] self.cc[c]).len() == INDICES
        &&& forall|c: int|
            0 <= c < CHANNELS ==> (#[trigger] self.poly_pressure[c]).len() == INDICES
    }

/// The store before any message: every slot empty.
    pub open spec fn initial() -> StateView {
        StateView {
            cc: Seq::new(CHANNELS as nat, |c: int| Seq::new(INDICES as nat, |i: int| empty_slot())),
            pitch_bend: Seq::new(CHANNELS as nat, |c: int| empty_slot()),
            ch_pressure: Seq::new(CHANNELS as nat, |c: int| empty_slot()),
            program: Seq::new(CHANNELS as nat, |c: int| empty_slot()),
            poly_pressure: Seq::new(
                CHANNELS as nat,
                |c: int| Seq::new(INDICES as nat, |i: int| empty_slot()),
            ),
        }
    }

/// The store after a controller message.
    pub open spec fn write_cc(self, ch: int, ctrl: int, value: int, ts_us: u64) -> StateView {
        StateView {
            cc: self.cc.update(ch, self.cc[ch].update(ctrl, self.cc[ch][ctrl].write(value, ts_us))),
            ..self
        }
    }

/// The store after a polyphonic key pressure message.
    pub open spec fn write_poly_pressure(
        self,
        ch: int,
        note: int,
        value: int,
        ts_us: u64,
    ) -> StateView {
        StateView {
            poly_pressure: self.poly_pressure.update(
                ch,
                self.poly_pressure[ch].update(
                    note,
                    self.poly_pressure[ch][note].write(value, ts_us),
                ),
            ),
            ..self
        }
    }

/// The store after a pitch-bend message that carries `bend`.
    pub open spec fn write_pitch_bend(self, ch: int, bend: int, ts_us: u64) -> StateView {
        StateView { pitch_bend: self.pitch_bend.update(ch, self.pitch_bend[ch].write(bend, ts_us)), ..self }
    }

/// The store after a channel pressure message.
    pub open spec fn write_ch_pressure(self, ch: int, value: int, ts_us: u64) -> StateView {
        StateView {
            ch_pressure: self.ch_pressure.update(ch, self.ch_pressure[ch].write(value, ts_us)),
            ..self
        }
    }

/// The store after a program change.
    pub open spec fn write_program(self, ch: int, value: int, ts_us: u64) -> StateView {
        StateView { program: self.program.update(ch, self.program[ch].write(value, ts_us)), ..self }
    }
}

/// The signed bend that a pitch-bend message carries: its two 7-bit data
/// bytes joined into a 14-bit number, less the center.
pub open spec fn bend_of(lsb: u8, msb: u8) -> int {
    msb * 128 + lsb - BEND_CENTER
}

/// One channel's row of a grid, as slots.
pub open spec fn row_view(
    values: [u8; 128],
    stamps: [u64; 128],
    dirty: [u64; 2],
    seen: [u64; 2],
) -> Seq<Slot> {
    Seq::new(
        128,
        |i: int|
            Slot {
                value: values[i] as int,
                ts_us: stamps[i],
                dirty: bit(dirty, i),
                written: bit(seen, i),
            },
    )
}

/// The indices below `upto` of the dirty slots of a row, ascending.
pub open spec fn dirty_indices(row: Seq<Slot>, upto: int) -> Seq<u8>
    decreases upto,
{
    if upto <= 0 {
        Seq::empty()
    } else if row[upto - 1].dirty {
        dirty_indices(row, upto - 1).push((upto - 1) as u8)
    } else {
        dirty_indices(row, upto - 1)
    }
}

/// The record that reports a grid slot: the index in `a`, the value in `b`.
pub open spec fn wide_record(kind: u8, ch: int, index: u8, slot: Slot) -> Record {
    Record {
        ts_us: slot.ts_us,
        kind,
        channel: ch as u8,
        a: index,
        b: slot.value as u8,
        v16: 0,
        extra: 0,
    }
}

/// The record that reports a channel pressure or a program: the value in `b`.
pub open spec fn narrow_record(kind: u8, ch: int, slot: Slot) -> Record {
    Record { ts_us: slot.ts_us, kind, channel: ch as u8, a: 0, b: slot.value as u8, v16: 0, extra: 0 }
}

/// The record that reports a pitch bend: the signed bend in `v16`.
pub open spec fn bend_record(ch: int, slot: Slot) -> Record {
    Record {
        ts_us: slot.ts_us,
        kind: KIND_PB,
        channel: ch as u8,
        a: 0,
        b: 0,
        v16: slot.value as i16,
        extra: 0,
    }
}

/// One record per dirty slot of a row, by ascending index.
pub open spec fn row_records(kind: u8, ch: int, row: Seq<Slot>) -> Seq<Record> {
    dirty_indices(row, INDICES as int).map_values(
        |i: u8| wide_record(kind, ch, i, row[i as int]),
    )
}

/// The record of a per-channel slot if it is dirty, else nothing.
pub open spec fn when_dirty(slot: Slot, r: Record) -> Seq<Record> {
    if slot.dirty {
        seq![r]
    } else {
        Seq::empty()
    }
}

impl StateView {
    /// What one channel has to report, in emission order: dirty controllers
    /// by ascending number, then pitch bend, channel pressure and program,
    /// then dirty polyphonic pressures by ascending note.
    pub open spec fn channel_records(self, ch: int) -> Seq<Record> {
        row_records(KIND_CC, ch, self.cc[ch]) + when_dirty(
            self.pitch_bend[ch],
            bend_record(ch, self.pitch_bend[ch]),
        ) + when_dirty(self.ch_pressure[ch], narrow_record(KIND_CH_PRESS, ch, self.ch_pressure[ch]))
            + when_dirty(self.program[ch], narrow_record(KIND_PROG, ch, self.program[ch]))
            + row_records(KIND_POLY_PRESS, ch, self.poly_pressure[ch])
    }

    /// What the channels below `upto` have to report, channel by channel.
    pub open spec fn pending_below(self, upto: int) -> Seq<Record>
        decreases upto,
    {
        if upto <= 0 {
            Seq::empty()
        } else {
            self.pending_below(upto - 1) + self.channel_records(upto - 1)
        }
    }

    /// Everything the store has to report: one record per dirty slot.
    pub open spec fn pending(self) -> Seq<Record> {
        self.pending_below(CHANNELS as int)
    }

    /// The store with the dirty marks of the channels below `upto` cleared
    /// and everything else as it is.
    pub open spec fn cleared_below(self, upto: int) -> StateView {
        StateView {
            cc: Seq::new(
                16,
                |c: int|
                    Seq::new(
                        128,
                        |i: int|
                            if c < upto {
                                self.cc[c][i].cleared()
                            } else {
                                self.cc[c][i]
                            },
                    ),
            ),
            pitch_bend: Seq::new(
                16,
                |c: int|
                    if c < upto {
                        self.pitch_bend[c].cleared()
                    } else {
                        self.pitch_bend[c]
                    },
            ),
            ch_pressure: Seq::new(
                16,
                |c: int|
                    if c < upto {
                        self.ch_pressure[c].cleared()
                    } else {
                        self.ch_pressure[c]
                    },
            ),
            program: Seq::new(
                16,
                |c: int|
                    if c < upto {
                        self.program[c].cleared()
                    } else {
                        self.program[c]
                    },
            ),
            poly_pressure: Seq::new(
                16,
                |c: int|
                    Seq::new(
                        128,
                        |i: int|
                            if c < upto {
                                self.poly_pressure[c][i].cleared()
                            } else {
                                self.poly_pressure[c][i]
                            },
                    ),
            ),
        }
    }

    /// The store after dispatch has read it: same values and timestamps,
    /// no dirty mark left.
    pub open spec fn cleared(self) -> StateView {
        self.cleared_below(CHANNELS as int)
    }
}

/// The store itself: dense arrays, one entry per channel and index.
pub struct State {
    cc: [[u8; 128]; 16],
    cc_ts: [[u64; 128]; 16],
    cc_dirty: [[u64; 2]; 16],
    cc_seen: [[u64; 2]; 16],
    pb: [i16; 16],
    pb_ts: [u64; 16],
    pb_dirty: [bool; 16],
    pb_seen: [bool; 16],
    ch_pressure: [u8; 16],
    ch_pressure_ts: [u64; 16],
    ch_pressure_dirty: [bool; 16],
    ch_pressure_seen: [bool; 16],
    program: [u8; 16],
    program_ts: [u64; 16],
    program_dirty: [bool; 16],
    program_seen: [bool; 16],
    poly_pressure: [[u8; 128]; 16],
    poly_pressure_ts: [[u64; 128]; 16],
    poly_pressure_dirty: [[u64; 2]; 16],
    poly_pressure_seen: [[u64; 2]; 16],
}

impl View for State {
    type V = StateView;

    closed spec fn view(&self) -> StateView {
        StateView {
            cc: Seq::new(
                16,
                |c: int| row_view(self.cc[c], self.cc_ts[c], self.cc_dirty[c], self.cc_seen[c]),
            ),
            pitch_bend: Seq::new(
                16,
                |c: int|
                    Slot {
                        value: self.pb[c] as int,
                        ts_us: self.pb_ts[c],
                        dirty: self.pb_dirty[c],
                        written: self.pb_seen[c],
                    },
            ),
            ch_pressure: Seq::new(
                16,
                |c: int|
                    Slot {
                        value: self.ch_pressure[c] as int,
                        ts_us: self.ch_pressure_ts[c],
                        dirty: self.ch_pressure_dirty[c],
                        written: self.ch_pressure_seen[c],
                    },
            ),
            program: Seq::new(
                16,
                |c: int|
                    Slot {
                        value: self.program[c] as int,
                        ts_us: self.program_ts[c],
                        dirty: self.program_dirty[c],
                        written: self.program_seen[c],
                    },
            ),
            poly_pressure: Seq::new(
                16,
                |c: int|
                    row_view(
                        self.poly_pressure[c],
                        self.poly_pressure_ts[c],
                        self.poly_pressure_dirty[c],
                        self.poly_pressure_seen[c],
                    ),
            ),
        }
    }
}

/// Two stores that agree slot by slot are the same store.
proof fn lemma_same_store(a: StateView, b: StateView)
    requires
        a.shaped(),
        b.shaped(),
        forall|c: int, i: int|
            0 <= c < CHANNELS && 0 <= i < INDICES ==> #[trigger] a.cc[c][i] == b.cc[c][i],
        forall|c: int, i: int|
            0 <= c < CHANNELS && 0 <= i < INDICES ==> #[trigger] a.poly_pressure[c][i]
                == b.poly_pressure[c][i],
        forall|c: int| 0 <= c < CHANNELS ==> #[trigger] a.pitch_bend[c] == b.pitch_bend[c],
        forall|c: int| 0 <= c < CHANNELS ==> #[trigger] a.ch_pressure[c] == b.ch_pressure[c],
        forall|c: int| 0 <= c < CHANNELS ==> #[trigger] a.program[c] == b.program[c],
    ensures
        a == b,
{
    assert forall|c: int| 0 <= c < CHANNELS implies #[trigger] a.cc[c] =~= b.cc[c] by {
        assert forall|i: int| 0 <= i < INDICES implies a.cc[c][i] == b.cc[c][i] by {}
    }
    assert forall|c: int| 0 <= c < CHANNELS implies #[trigger] a.poly_pressure[c]
        =~= b.poly_pressure[c] by {
        assert forall|i: int| 0 <= i < INDICES implies a.poly_pressure[c][i]
            == b.poly_pressure[c][i] by {}
    }
    assert(a.cc =~= b.cc);
    assert(a.poly_pressure =~= b.poly_pressure);
    assert(a.pitch_bend =~= b.pitch_bend);
    assert(a.ch_pressure =~= b.ch_pressure);
    assert(a.program =~= b.program);
}

impl State {
    /// Every store has the fixed shape, whatever it holds.
    pub proof fn lemma_shaped(&self)
        ensures
            self@.shaped(),
    {
    }

    /// A store in which no parameter has been written yet.
    pub fn new() -> (state: State)
        ensures
            state@ == StateView::initial(),
    {
        let state = State {
            cc: [[0; 128]; 16],
            cc_ts: [[0; 128]; 16],
            cc_dirty: [[0; 2]; 16],
            cc_seen: [[0; 2]; 16],
            pb: [0; 16],
            pb_ts: [0; 16],
            pb_dirty: [false; 16],
            pb_seen: [false; 16],
            ch_pressure: [0; 16],
            ch_pressure_ts: [0; 16],
            ch_pressure_dirty: [false; 16],
            ch_pressure_seen: [false; 16],
            program: [0; 16],
            program_ts: [0; 16],
            program_dirty: [false; 16],
            program_seen: [false; 16],
            poly_pressure: [[0; 128]; 16],
            poly_pressure_ts: [[0; 128]; 16],
            poly_pressure_dirty: [[0; 2]; 16],
            poly_pressure_seen: [[0; 2]; 16],
        };
        proof {
            assert forall|c: int, i: int| 0 <= c < 16 && 0 <= i < 128 implies !bit(
                state.cc_dirty[c],
                i,
            ) && !bit(state.poly_pressure_dirty[c], i) && !bit(state.cc_seen[c], i) && !bit(
                state.poly_pressure_seen[c],
                i,
            ) by {
                lemma_no_bit_in_zero(state.cc_dirty[c], i);
                lemma_no_bit_in_zero(state.poly_pressure_dirty[c], i);
                lemma_no_bit_in_zero(state.cc_seen[c], i);
                lemma_no_bit_in_zero(state.poly_pressure_seen[c], i);
            }
            lemma_same_store(state@, StateView::initial());
        }
        state
    }
}

impl Default for State {
    /// Same as `State::new`.
    fn default() -> (state: State)
        ensures
            state@ == StateView::initial(),
    {
        State::new()
    }
}

/// Stores a controller value, latest value wins. The first value written
/// to a controller always counts as a change.
pub fn update_cc(state: &mut State, channel: u8, ctrl: u8, val: u8, ts_us: u64)
    requires
        channel < CHANNELS,
        ctrl < INDICES,
    ensures
        final(state)@ == old(state)@.write_cc(channel as int, ctrl as int, val as int, ts_us),
{
    let ch: usize = channel as usize;
    let idx: usize = ctrl as usize;
    if !test_bit(&state.cc_seen[ch], ctrl) || state.cc[ch][idx] != val {
        state.cc[ch][idx] = val;
        state.cc_ts[ch][idx] = ts_us;
        set_bit(&mut state.cc_dirty[ch], ctrl);
        set_bit(&mut state.cc_seen[ch], ctrl);
    }
    proof {
        lemma_same_store(
            state@,
            old(state)@.write_cc(channel as int, ctrl as int, val as int, ts_us),
        );
    }
}

/// Stores a polyphonic key pressure, latest value wins. The first value
/// written for a note always counts as a change.
pub fn update_poly_pressure(state: &mut State, channel: u8, note: u8, pressure: u8, ts_us: u64)
    requires
        channel < CHANNELS,
        note < INDICES,
    ensures
        final(state)@ == old(state)@.write_poly_pressure(
            channel as int,
            note as int,
            pressure as int,
            ts_us,
        ),
{
    let ch: usize = channel as usize;
    let idx: usize = note as usize;
    if !test_bit(&state.poly_pressure_seen[ch], note) || state.poly_pressure[ch][idx] != pressure {
        state.poly_pressure[ch][idx] = pressure;
        state.poly_pressure_ts[ch][idx] = ts_us;
        set_bit(&mut state.poly_pressure_dirty[ch], note);
        set_bit(&mut state.poly_pressure_seen[ch], note);
    }
    proof {
        lemma_same_store(
            state@,
            old(state)@.write_poly_pressure(channel as int, note as int, pressure as int, ts_us),
        );
    }
}

/// Stores a pitch bend, latest value wins. The two data bytes are 7-bit;
/// the stored bend lies between -8192 and 8191. The first bend written to
/// a channel always counts as a change, the center included.
pub fn update_pitch_bend(state: &mut State, channel: u8, lsb: u8, msb: u8, ts_us: u64)
    requires
        channel < CHANNELS,
        lsb < 128,
        msb < 128,
    ensures
        final(state)@ == old(state)@.write_pitch_bend(channel as int, bend_of(lsb, msb), ts_us),
        -8192 <= bend_of(lsb, msb) <= 8191,
{
    let ch: usize = channel as usize;
    let raw: i16 = (msb as i16) * 128 + (lsb as i16);
    let bend: i16 = raw - BEND_CENTER;
    if !state.pb_seen[ch] || state.pb[ch] != bend {
        state.pb[ch] = bend;
        state.pb_ts[ch] = ts_us;
        state.pb_dirty[ch] = true;
        state.pb_seen[ch] = true;
    }
    proof {
        lemma_same_store(
            state@,
            old(state)@.write_pitch_bend(channel as int, bend_of(lsb, msb), ts_us),
        );
    }
}

/// Stores a channel pressure, latest value wins. The first pressure
/// written to a channel always counts as a change.
pub fn update_ch_pressure(state: &mut State, channel: u8, pressure: u8, ts_us: u64)
    requires
        channel < CHANNELS,
    ensures
        final(state)@ == old(state)@.write_ch_pressure(channel as int, pressure as int, ts_us),
{
    let ch: usize = channel as usize;
    if !state.ch_pressure_seen[ch] || state.ch_pressure[ch] != pressure {
        state.ch_pressure[ch] = pressure;
        state.ch_pressure_ts[ch] = ts_us;
        state.ch_pressure_dirty[ch] = true;
        state.ch_pressure_seen[ch] = true;
    }
    proof {
        lemma_same_store(
            state@,
            old(state)@.write_ch_pressure(channel as int, pressure as int, ts_us),
        );
    }
}

/// Stores a program number, latest value wins. The first program written
/// to a channel always counts as a change.
pub fn update_program(state: &mut State, channel: u8, program: u8, ts_us: u64)
    requires
        channel < CHANNELS,
    ensures
        final(state)@ == old(state)@.write_program(channel as int, program as int, ts_us),
{
    let ch: usize = channel as usize;
    if !state.program_seen[ch] || state.program[ch] != program {
        state.program[ch] = program;
        state.program_ts[ch] = ts_us;
        state.program_dirty[ch] = true;
        state.program_seen[ch] = true;
    }
    proof {
        lemma_same_store(
            state@,
            old(state)@.write_program(channel as int, program as int, ts_us),
        );
    }
}

/// The dirty slots of a row are the set bits of its dirty words.
proof fn lemma_dirty_indices_bits(
    values: [u8; 128],
    stamps: [u64; 128],
    bits: [u64; 2],
    seen: [u64; 2],
    upto: int,
)
    requires
        0 <= upto <= 128,
    ensures
        dirty_indices(row_view(values, stamps, bits, seen), upto) == set_bits(bits, upto),
    decreases upto,
{
    if upto > 0 {
        lemma_dirty_indices_bits(values, stamps, bits, seen, upto - 1);
    }
}

/// Reports the dirty slots of one row, by ascending index, and clears the
/// row's marks.
fn drain_row(
    kind: u8,
    channel: u8,
    values: &[u8; 128],
    stamps: &[u64; 128],
    seen: &[u64; 2],
    dirty: &mut [u64; 2],
    records: &mut Vec<Record>,
)
    ensures
        final(records)@ == old(records)@ + row_records(
            kind,
            channel as int,
            row_view(*values, *stamps, *old(dirty), *seen),
        ),
        forall|j: int| 0 <= j < 128 ==> !bit(*final(dirty), j),
{
    let indices = collect_bitset(*dirty);
    let ghost row = row_view(*values, *stamps, *old(dirty), *seen);
    let ghost report = |i: u8| wide_record(kind, channel as int, i, row[i as int]);
    proof {
        lemma_dirty_indices_bits(*values, *stamps, *dirty, *seen, 128);
    }
    *dirty = [0; 2];
    let n: usize = indices.len();
    let mut k: usize = 0;
    while k < n
        invariant
            k <= n,
            n == indices@.len(),
            indices@ == set_bits(*old(dirty), 128),
            row == row_view(*values, *stamps, *old(dirty), *seen),
            report == |i: u8| wide_record(kind, channel as int, i, row[i as int]),
            records@ == old(records)@ + indices@.take(k as int).map_values(report),
        decreases n - k,
    {
        let index: u8 = indices[k];
        proof {
            lemma_set_bits_below(*old(dirty), 128, k as int);
        }
        let idx: usize = index as usize;
        records.push(
            Record {
                ts_us: stamps[idx],
                kind,
                channel,
                a: index,
                b: values[idx],
                v16: 0,
                extra: 0,
            },
        );
        proof {
            assert(indices@.take(k + 1).map_values(report) =~= indices@.take(k as int).map_values(
                report,
            ).push(report(index)));
        }
        k = k + 1;
    }
    proof {
        assert(indices@.take(n as int) =~= indices@);
        assert forall|j: int| 0 <= j < 128 implies !bit(*dirty, j) by {
            lemma_no_bit_in_zero(*dirty, j);
        }
    }
}

impl State {
    /// Reads the store for dispatch: appends one record per dirty slot,
    /// channel by channel in ascending order and within a channel in the
    /// order of `channel_records`, and clears every mark that was read.
    pub fn drain_dirty(&mut self, records: &mut Vec<Record>)
        ensures
            final(records)@ == old(records)@ + old(self)@.pending(),
            final(self)@ == old(self)@.cleared(),
    {
        let mut ch: usize = 0;
        proof {
            lemma_same_store(self@, self@.cleared_below(0));
        }
        while ch < 16
            invariant
                ch <= 16,
                self@ == old(self)@.cleared_below(ch as int),
                records@ == old(records)@ + old(self)@.pending_below(ch as int),
            decreases 16 - ch,
        {
            let channel: u8 = ch as u8;
            let ghost before = *self;
            let ghost base = records@;
            let ghost was = old(self)@;
            proof {
                assert(before@.cc[ch as int] == was.cleared_below(ch as int).cc[ch as int]);
                assert(before@.cc[ch as int] =~= was.cc[ch as int]);
                assert(before@.poly_pressure[ch as int] == was.cleared_below(
                    ch as int,
                ).poly_pressure[ch as int]);
                assert(before@.poly_pressure[ch as int] =~= was.poly_pressure[ch as int]);
                assert(before@.pitch_bend[ch as int] == was.cleared_below(ch as int).pitch_bend[ch as int]);
                assert(before@.ch_pressure[ch as int] == was.cleared_below(ch as int).ch_pressure[ch as int]);
                assert(before@.program[ch as int] == was.cleared_below(ch as int).program[ch as int]);
            }
            drain_row(
                KIND_CC,
                channel,
                &self.cc[ch],
                &self.cc_ts[ch],
                &self.cc_seen[ch],
                &mut self.cc_dirty[ch],
                records,
            );
            if self.pb_dirty[ch] {
                records.push(
                    Record {
                        ts_us: self.pb_ts[ch],
                        kind: KIND_PB,
                        channel,
                        a: 0,
                        b: 0,
                        v16: self.pb[ch],
                        extra: 0,
                    },
                );
                self.pb_dirty[ch] = false;
            }
            if self.ch_pressure_dirty[ch] {
                records.push(
                    Record {
                        ts_us: self.ch_pressure_ts[ch],
                        kind: KIND_CH_PRESS,
                        channel,
                        a: 0,
                        b: self.ch_pressure[ch],
                        v16: 0,
                        extra: 0,
                    },
                );
                self.ch_pressure_dirty[ch] = false;
            }
            if self.program_dirty[ch] {
                records.push(
                    Record {
                        ts_us: self.program_ts[ch],
                        kind: KIND_PROG,
                        channel,
                        a: 0,
                        b: self.program[ch],
                        v16: 0,
                        extra: 0,
                    },
                );
                self.program_dirty[ch] = false;
            }
            drain_row(
                KIND_POLY_PRESS,
                channel,
                &self.poly_pressure[ch],
                &self.poly_pressure_ts[ch],
                &self.poly_pressure_seen[ch],
                &mut self.poly_pressure_dirty[ch],
                records,
            );
            proof {
                let c = ch as int;
                assert(records@ =~= base + was.channel_records(c));
                let want = was.cleared_below(c + 1);
                assert forall|k: int| 0 <= k < 16 implies #[trigger] self@.cc[k] =~= want.cc[k] by {
                    if k != c {
                        assert(self@.cc[k] == before@.cc[k]);
                        assert(before@.cc[k] == was.cleared_below(c).cc[k]);
                    } else {
                        assert forall|i: int| 0 <= i < 128 implies self@.cc[k][i] == want.cc[k][i] by {
                            assert(before@.cc[k][i] == was.cc[k][i]);
                        }
                    }
                }
                assert forall|k: int| 0 <= k < 16 implies #[trigger] self@.poly_pressure[k]
                    =~= want.poly_pressure[k] by {
                    if k != c {
                        assert(self@.poly_pressure[k] == before@.poly_pressure[k]);
                        assert(before@.poly_pressure[k] == was.cleared_below(c).poly_pressure[k]);
                    } else {
                        assert forall|i: int| 0 <= i < 128 implies self@.poly_pressure[k][i]
                            == want.poly_pressure[k][i] by {
                            assert(before@.poly_pressure[k][i] == was.poly_pressure[k][i]);
                        }
                    }
                }
                assert forall|k: int| 0 <= k < 16 implies #[trigger] self@.pitch_bend[k]
                    == want.pitch_bend[k] by {
                    assert(before@.pitch_bend[k] == was.cleared_below(c).pitch_bend[k]);
                }
                assert forall|k: int| 0 <= k < 16 implies #[trigger] self@.ch_pressure[k]
                    == want.ch_pressure[k] by {
                    assert(before@.ch_pressure[k] == was.cleared_below(c).ch_pressure[k]);
                }
                assert forall|k: int| 0 <= k < 16 implies #[trigger] self@.program[k]
                    == want.program[k] by {
                    assert(before@.program[k] == was.cleared_below(c).program[k]);
                }
                lemma_same_store(self@, want);
            }
            ch = ch + 1;
        }
    }
}

impl StateView {
    /// No slot is marked dirty.
    pub open spec fn clean(self) -> bool {
        &&& forall|c: int, i: int|
            0 <= c < CHANNELS && 0 <= i < INDICES ==> !(#[trigger] self.cc[c][i]).dirty
        &&& forall|c: int, i: int|
            0 <= c < CHANNELS && 0 <= i < INDICES ==> !(#[trigger] self.poly_pressure[c][i]).dirty
        &&& forall|c: int| 0 <= c < CHANNELS ==> !(#[trigger] self.pitch_bend[c]).dirty
        &&& forall|c: int| 0 <= c < CHANNELS ==> !(#[trigger] self.ch_pressure[c]).dirty
        &&& forall|c: int| 0 <= c < CHANNELS ==> !(#[trigger] self.program[c]).dirty
    }

    /// The store after a run of controller messages, each a value with its
    /// timestamp, all for one controller of one channel.
    pub open spec fn write_cc_all(self, ch: int, ctrl: int, msgs: Seq<(u8, u64)>) -> StateView
        decreases msgs.len(),
    {
        if msgs.len() == 0 {
            self
        } else {
            self.write_cc_all(ch, ctrl, msgs.drop_last()).write_cc(
                ch,
                ctrl,
                msgs.last().0 as int,
                msgs.last().1,
            )
        }
    }
}

/// A row without dirty slots lists no index.
proof fn lemma_dirty_indices_none(row: Seq<Slot>, upto: int)
    requires
        0 <= upto <= row.len(),
        forall|i: int| 0 <= i < upto ==> !(#[trigger] row[i]).dirty,
    ensures
        dirty_indices(row, upto) == Seq::<u8>::empty(),
    decreases upto,
{
    if upto > 0 {
        lemma_dirty_indices_none(row, upto - 1);
    }
}

/// A row whose only dirty slot is `k` lists exactly `k`.
proof fn lemma_dirty_indices_one(row: Seq<Slot>, upto: int, k: int)
    requires
        0 <= k < upto <= row.len(),
        upto <= 256,
        forall|i: int| 0 <= i < upto ==> ((#[trigger] row[i]).dirty <==> i == k),
    ensures
        dirty_indices(row, upto) == seq![k as u8],
    decreases upto,
{
    if upto - 1 == k {
        lemma_dirty_indices_none(row, upto - 1);
        assert(dirty_indices(row, upto) =~= seq![k as u8]);
    } else {
        lemma_dirty_indices_one(row, upto - 1, k);
    }
}

/// A clean channel has nothing to report.
proof fn lemma_clean_channel(v: StateView, ch: int)
    requires
        v.shaped(),
        0 <= ch < CHANNELS,
        forall|i: int| 0 <= i < INDICES ==> !(#[trigger] v.cc[ch][i]).dirty,
        forall|i: int| 0 <= i < INDICES ==> !(#[trigger] v.poly_pressure[ch][i]).dirty,
        !v.pitch_bend[ch].dirty,
        !v.ch_pressure[ch].dirty,
        !v.program[ch].dirty,
    ensures
        v.channel_records(ch) == Seq::<Record>::empty(),
{
    lemma_dirty_indices_none(v.cc[ch], 128);
    lemma_dirty_indices_none(v.poly_pressure[ch], 128);
    assert(v.channel_records(ch) =~= Seq::<Record>::empty());
}

/// A store without dirty marks has nothing to report, and a store with
/// nothing to report has no dirty mark.
pub proof fn lemma_clean_iff_nothing_pending(v: StateView)
    requires
        v.shaped(),
    ensures
        v.clean() <==> v.pending().len() == 0,
{
    if v.clean() {
        lemma_clean_pending_below(v, 16);
    }
    if v.pending().len() == 0 {
        lemma_nothing_pending_below(v, 16);
    }
}

/// Clean channels have nothing to report.
proof fn lemma_clean_pending_below(v: StateView, upto: int)
    requires
        v.shaped(),
        v.clean(),
        0 <= upto <= CHANNELS,
    ensures
        v.pending_below(upto) == Seq::<Record>::empty(),
    decreases upto,
{
    if upto > 0 {
        lemma_clean_pending_below(v, upto - 1);
        lemma_clean_channel(v, upto - 1);
    }
}

/// A row with a dirty slot lists at least one index.
proof fn lemma_dirty_indices_some(row: Seq<Slot>, upto: int, k: int)
    requires
        0 <= k < upto <= row.len(),
        row[k].dirty,
    ensures
        dirty_indices(row, upto).len() > 0,
    decreases upto,
{
    if upto - 1 != k {
        if !row[upto - 1].dirty {
            lemma_dirty_indices_some(row, upto - 1, k);
        }
    }
}

/// Channels that report nothing hold no dirty slot.
proof fn lemma_nothing_pending_below(v: StateView, upto: int)
    requires
        v.shaped(),
        0 <= upto <= CHANNELS,
        v.pending_below(upto).len() == 0,
    ensures
        forall|c: int, i: int| 0 <= c < upto && 0 <= i < INDICES ==> !(#[trigger] v.cc[c][i]).dirty,
        forall|c: int, i: int|
            0 <= c < upto && 0 <= i < INDICES ==> !(#[trigger] v.poly_pressure[c][i]).dirty,
        forall|c: int| 0 <= c < upto ==> !(#[trigger] v.pitch_bend[c]).dirty,
        forall|c: int| 0 <= c < upto ==> !(#[trigger] v.ch_pressure[c]).dirty,
        forall|c: int| 0 <= c < upto ==> !(#[trigger] v.program[c]).dirty,
    decreases upto,
{
    if upto > 0 {
        let ch = upto - 1;
        lemma_nothing_pending_below(v, ch);
        assert(v.channel_records(ch).len() == 0);
        assert forall|i: int| 0 <= i < INDICES implies !(#[trigger] v.cc[ch][i]).dirty by {
            if v.cc[ch][i].dirty {
                lemma_dirty_indices_some(v.cc[ch], 128, i);
            }
        }
        assert forall|i: int| 0 <= i < INDICES implies !(#[trigger] v.poly_pressure[ch][i]).dirty by {
            if v.poly_pressure[ch][i].dirty {
                lemma_dirty_indices_some(v.poly_pressure[ch], 128, i);
            }
        }
    }
}

/// What dispatch leaves behind is clean.
pub proof fn lemma_cleared_is_clean(v: StateView)
    requires
        v.shaped(),
    ensures
        v.cleared().clean(),
        v.cleared().shaped(),
        v.clean() ==> v.cleared() == v,
{
    if v.clean() {
        let w = v.cleared();
        assert(w.cc =~~= v.cc);
        assert(w.poly_pressure =~~= v.poly_pressure);
        assert(w.pitch_bend =~= v.pitch_bend);
        assert(w.ch_pressure =~= v.ch_pressure);
        assert(w.program =~= v.program);
    }
}

/// Repeating the value that a slot holds, however often, produces no dirty
/// mark and moves no timestamp: the store is exactly what it was.
pub proof fn lemma_repeated_value_leaves_no_mark(
    v: StateView,
    ch: int,
    ctrl: int,
    msgs: Seq<(u8, u64)>,
)
    requires
        v.shaped(),
        0 <= ch < CHANNELS,
        0 <= ctrl < INDICES,
        v.cc[ch][ctrl].written,
        forall|k: int| 0 <= k < msgs.len() ==> (#[trigger] msgs[k]).0 == v.cc[ch][ctrl].value,
    ensures
        v.write_cc_all(ch, ctrl, msgs) == v,
    decreases msgs.len(),
{
    if msgs.len() > 0 {
        lemma_repeated_value_leaves_no_mark(v, ch, ctrl, msgs.drop_last());
        let w = v.write_cc(ch, ctrl, msgs.last().0 as int, msgs.last().1);
        assert(w.cc =~~= v.cc);
    }
}

/// Latest value wins: after a run of controller messages in which every
/// value differs from the one before it (the first from the value held, if
/// the slot holds one), the slot holds the last value with the last
/// timestamp and is dirty, and no other slot has changed.
pub proof fn lemma_latest_value_wins(v: StateView, ch: int, ctrl: int, msgs: Seq<(u8, u64)>)
    requires
        v.shaped(),
        0 <= ch < CHANNELS,
        0 <= ctrl < INDICES,
        msgs.len() > 0,
        !v.cc[ch][ctrl].written || msgs[0].0 != v.cc[ch][ctrl].value,
        forall|k: int| 0 < k < msgs.len() ==> (#[trigger] msgs[k]).0 != msgs[k - 1].0,
    ensures
        v.write_cc_all(ch, ctrl, msgs) == (StateView {
            cc: v.cc.update(
                ch,
                v.cc[ch].update(
                    ctrl,
                    Slot {
                        value: msgs.last().0 as int,
                        ts_us: msgs.last().1,
                        dirty: true,
                        written: true,
                    },
                ),
            ),
            ..v
        }),
    decreases msgs.len(),
{
    let init = msgs.drop_last();
    let last = Slot {
        value: msgs.last().0 as int,
        ts_us: msgs.last().1,
        dirty: true,
        written: true,
    };
    let want = StateView { cc: v.cc.update(ch, v.cc[ch].update(ctrl, last)), ..v };
    if init.len() == 0 {
        assert(v.write_cc_all(ch, ctrl, init) == v);
        assert(v.write_cc_all(ch, ctrl, msgs).cc =~~= want.cc);
    } else {
        assert(init[0] == msgs[0]);
        assert forall|k: int| 0 < k < init.len() implies (#[trigger] init[k]).0 != init[k - 1].0 by {
            assert(init[k] == msgs[k]);
            assert(init[k - 1] == msgs[k - 1]);
        }
        lemma_latest_value_wins(v, ch, ctrl, init);
        assert(init.last() == msgs[msgs.len() - 2]);
        assert(msgs.last() == msgs[msgs.len() - 1]);
        assert(v.write_cc_all(ch, ctrl, msgs).cc =~~= want.cc);
    }
}

/// Between two dispatches such a run leaves exactly one mark: a store that
/// was clean then has exactly one record to report, which carries the last
/// value and its timestamp.
pub proof fn lemma_one_mark_outstanding(v: StateView, ch: int, ctrl: int, msgs: Seq<(u8, u64)>)
    requires
        v.shaped(),
        v.clean(),
        0 <= ch < CHANNELS,
        0 <= ctrl < INDICES,
        msgs.len() > 0,
        !v.cc[ch][ctrl].written || msgs[0].0 != v.cc[ch][ctrl].value,
        forall|k: int| 0 < k < msgs.len() ==> (#[trigger] msgs[k]).0 != msgs[k - 1].0,
    ensures
        v.write_cc_all(ch, ctrl, msgs).pending() == seq![
            Record {
                ts_us: msgs.last().1,
                kind: KIND_CC,
                channel: ch as u8,
                a: ctrl as u8,
                b: msgs.last().0,
                v16: 0,
                extra: 0,
            },
        ],
{
    lemma_latest_value_wins(v, ch, ctrl, msgs);
    let w = v.write_cc_all(ch, ctrl, msgs);
    let r = Record {
        ts_us: msgs.last().1,
        kind: KIND_CC,
        channel: ch as u8,
        a: ctrl as u8,
        b: msgs.last().0,
        v16: 0,
        extra: 0,
    };
    lemma_dirty_indices_one(w.cc[ch], 128, ctrl);
    lemma_dirty_indices_none(w.poly_pressure[ch], 128);
    assert(row_records(KIND_CC, ch, w.cc[ch]) =~= seq![r]);
    assert(w.channel_records(ch) =~= seq![r]);
    lemma_one_mark_below(v, w, ch, r, 16);
}

/// When one channel reports the single record `r` and every other channel
/// is clean, the channels below `upto` report `r` if that channel is among
/// them and nothing otherwise.
proof fn lemma_one_mark_below(v: StateView, w: StateView, ch: int, r: Record, upto: int)
    requires
        v.shaped(),
        v.clean(),
        w.shaped(),
        0 <= ch < CHANNELS,
        0 <= upto <= CHANNELS,
        w.channel_records(ch) == seq![r],
        forall|c: int| 0 <= c < CHANNELS && c != ch ==> #[trigger] w.cc[c] == v.cc[c],
        w.poly_pressure == v.poly_pressure,
        w.pitch_bend == v.pitch_bend,
        w.ch_pressure == v.ch_pressure,
        w.program == v.program,
    ensures
        w.pending_below(upto) == if ch < upto {
            seq![r]
        } else {
            Seq::<Record>::empty()
        },
    decreases upto,
{
    if upto > 0 {
        lemma_one_mark_below(v, w, ch, r, upto - 1);
        if upto - 1 != ch {
            assert(w.cc[upto - 1] == v.cc[upto - 1]);
            lemma_clean_channel(w, upto - 1);
        }
        assert(w.pending_below(upto) =~= if ch < upto {
            seq![r]
        } else {
            Seq::<Record>::empty()
        });
    }
}

/// Whatever the store reports is a parameter change: a controller, a pitch
/// bend, a pressure or a program, never a note.
pub proof fn lemma_pending_kinds(v: StateView, upto: int)
    requires
        0 <= upto <= CHANNELS,
    ensures
        forall|i: int|
            0 <= i < v.pending_below(upto).len() ==> KIND_CC <= (
            #[trigger] v.pending_below(upto)[i]).kind <= KIND_PROG,
    decreases upto,
{
    if upto > 0 {
        lemma_pending_kinds(v, upto - 1);
        let ch = upto - 1;
        let head = v.pending_below(ch);
        let tail = v.channel_records(ch);
        assert forall|j: int| 0 <= j < tail.len() implies KIND_CC <= (#[trigger] tail[j]).kind
            <= KIND_PROG by {}
        assert forall|i: int| 0 <= i < v.pending_below(upto).len() implies KIND_CC <= (
        #[trigger] v.pending_below(upto)[i]).kind <= KIND_PROG by {
            if i < head.len() {
                assert(v.pending_below(upto)[i] == head[i]);
            } else {
                assert(v.pending_below(upto)[i] == tail[i - head.len()]);
            }
        }
    }
}

/// A row lists at most as many indices as it was asked about.
proof fn lemma_dirty_indices_len(row: Seq<Slot>, upto: int)
    requires
        0 <= upto,
    ensures
        dirty_indices(row, upto).len() <= upto,
    decreases upto,
{
    if upto > 0 {
        lemma_dirty_indices_len(row, upto - 1);
    }
}

/// The store never has more to report than it has slots: 259 on each
/// channel.
pub proof fn lemma_pending_len(v: StateView, upto: int)
    requires
        0 <= upto <= CHANNELS,
    ensures
        v.pending_below(upto).len() <= 259 * upto,
    decreases upto,
{
    if upto > 0 {
        let ch = upto - 1;
        lemma_pending_len(v, ch);
        lemma_dirty_indices_len(v.cc[ch], 128);
        lemma_dirty_indices_len(v.poly_pressure[ch], 128);
        assert(v.channel_records(ch).len() <= 259);
    }
}

} // verus!
