use midi_bridge::dispatch::{
    delivers, dispatch_tick, effective_rate, next_deadline, period_nanos, sort_by_ts, time_until,
    DEFAULT_RATE_HZ,
};
use midi_bridge::input::{handle_raw, parse_raw, push_note, NoteQueue, RawMsg};
use midi_bridge::packet::{decode_packet, Record, KIND_CC, KIND_NOTE, KIND_PB};
use midi_bridge::state::State;

struct Input {
    state: State,
    notes: NoteQueue,
    lost: u32,
}

impl Input {
    fn new() -> Input {
        Input { state: State::new(), notes: NoteQueue::new(), lost: 0 }
    }

    fn handle(&mut self, raw: RawMsg) {
        handle_raw(raw, &mut self.state, &mut self.notes, &mut self.lost);
    }

    fn drain(&mut self) -> Vec<Record> {
        let mut records = Vec::new();
        self.notes.drain_into(&mut records);
        self.state.drain_dirty(&mut records);
        records
    }

    fn tick(&mut self, ts_us: u64, dropped_raw: u32) -> Option<Vec<u8>> {
        let dropped_note = std::mem::take(&mut self.lost);
        dispatch_tick(&mut self.state, &mut self.notes, ts_us, dropped_raw, dropped_note)
    }
}


fn rec(ts_us: u64, a: u8) -> Record {
    Record { ts_us, kind: KIND_CC, channel: 0, a, b: 0, v16: 0, extra: 0 }
}

#[test]
fn sort_orders_by_timestamp() {
    let got = sort_by_ts(&vec![rec(3, 0), rec(1, 1), rec(2, 2), rec(0, 3)]);
    assert_eq!(got, vec![rec(0, 3), rec(1, 1), rec(2, 2), rec(3, 0)]);
    assert_eq!(sort_by_ts(&Vec::new()), Vec::<Record>::new());
    assert_eq!(sort_by_ts(&vec![rec(u64::MAX, 0), rec(0, 1)]), vec![rec(0, 1), rec(u64::MAX, 0)]);
}

#[test]
fn sort_keeps_ties_in_order() {
    let input = vec![rec(5, 0), rec(1, 1), rec(5, 2), rec(1, 3), rec(5, 4), rec(0, 5), rec(1, 6)];
    let got = sort_by_ts(&input);
    assert_eq!(
        got,
        vec![rec(0, 5), rec(1, 1), rec(1, 3), rec(1, 6), rec(5, 0), rec(5, 2), rec(5, 4)]
    );
}

#[test]
fn sort_agrees_with_the_standard_stable_sort() {
    let mut input = Vec::new();
    let mut x: u64 = 12345;
    for i in 0..2000u32 {
        x = x.wrapping_mul(6364136223846793005).wrapping_add(1442695040888963407);
        input.push(Record {
            ts_us: (x >> 33) % 50,
            kind: KIND_NOTE,
            channel: (i % 16) as u8,
            a: (i % 128) as u8,
            b: (i / 128) as u8,
            v16: 0,
            extra: 0,
        });
    }
    let mut want = input.clone();
    want.sort_by_key(|r| r.ts_us);
    assert_eq!(sort_by_ts(&input), want);
}

#[test]
fn idle_tick_gives_no_packet() {
    let mut shared = Input::new();
    assert!(shared.tick(0, 0).is_none());
    assert!(shared.tick(4_000, 0).is_none());
    shared.handle(RawMsg { ts_us: 1, status: 0xB0, data1: 1, data2: 0, len: 3 });
    assert!(shared.tick(8_000, 0).is_some());
    shared.handle(RawMsg { ts_us: 2, status: 0xB0, data1: 1, data2: 0, len: 3 });
    shared.handle(RawMsg { ts_us: 3, status: 0xF8, data1: 0, data2: 0, len: 1 });
    shared.handle(RawMsg { ts_us: 4, status: 0x90, data1: 1, data2: 1, len: 2 });
    assert!(shared.tick(12_000, 0).is_none());
}

#[test]
fn tick_after_a_tick_is_silent() {
    let mut shared = Input::new();
    shared.handle(RawMsg { ts_us: 1, status: 0xB0, data1: 1, data2: 9, len: 3 });
    push_note(&mut shared.notes, &mut shared.lost, 2, 0, 60, 100, true);
    assert!(shared.tick(10, 3).is_some());
    assert!(shared.tick(20, 0).is_none());
    assert!(shared.tick(30, 0).is_none());
}

#[test]
fn drops_alone_make_a_packet() {
    let mut shared = Input::new();
    let p = decode_packet(&shared.tick(77, 4).unwrap()).unwrap();
    assert_eq!((p.dispatch_ts_us, p.dropped_raw, p.dropped_note, p.flags), (77, 4, 0, 0));
    assert!(p.records.is_empty());
    for i in 0..4_097u64 {
        push_note(&mut shared.notes, &mut shared.lost, i, 0, 1, 1, true);
    }
    let _ = shared.drain();
    let p = decode_packet(&shared.tick(78, 0).unwrap()).unwrap();
    assert_eq!((p.dropped_raw, p.dropped_note), (0, 1));
    assert!(p.records.is_empty());
    assert!(shared.tick(79, 0).is_none());
}

#[test]
fn records_come_out_by_timestamp() {
    let mut shared = Input::new();
    shared.handle(RawMsg { ts_us: 100, status: 0x90, data1: 60, data2: 100, len: 3 });
    shared.handle(RawMsg { ts_us: 50, status: 0x80, data1: 61, data2: 0, len: 3 });
    shared.handle(RawMsg { ts_us: 75, status: 0xB0, data1: 7, data2: 99, len: 3 });
    let p = decode_packet(&shared.tick(1_000, 0).unwrap()).unwrap();
    let stamps: Vec<u64> = p.records.iter().map(|r| r.ts_us).collect();
    assert_eq!(stamps, vec![50, 75, 100]);
    assert_eq!(
        p.records,
        vec![
            Record { ts_us: 50, kind: KIND_NOTE, channel: 0, a: 61, b: 0, v16: 0, extra: 0 },
            Record { ts_us: 75, kind: KIND_CC, channel: 0, a: 7, b: 99, v16: 0, extra: 0 },
            Record { ts_us: 100, kind: KIND_NOTE, channel: 0, a: 60, b: 100, v16: 0, extra: 1 },
        ]
    );
}

#[test]
fn equal_timestamps_put_notes_before_parameters() {
    let mut shared = Input::new();
    shared.handle(RawMsg { ts_us: 5, status: 0xB2, data1: 7, data2: 1, len: 3 });
    shared.handle(RawMsg { ts_us: 5, status: 0xC0, data1: 3, data2: 0, len: 2 });
    shared.handle(RawMsg { ts_us: 5, status: 0x91, data1: 60, data2: 1, len: 3 });
    shared.handle(RawMsg { ts_us: 5, status: 0x81, data1: 60, data2: 0, len: 3 });
    let p = decode_packet(&shared.tick(6, 0).unwrap()).unwrap();
    let seen: Vec<(u8, u8, u16)> = p.records.iter().map(|r| (r.kind, r.channel, r.extra)).collect();
    assert_eq!(seen, vec![(6, 1, 1), (6, 1, 0), (5, 0, 0), (1, 2, 0)]);
}

#[test]
fn pitch_bend_center_at_250_hz() {
    let rate = effective_rate(250);
    assert_eq!(rate, 250);
    assert_eq!(period_nanos(rate), 4_000_000);
    let mut shared = Input::new();
    shared.handle(parse_raw(1_000, &[0xE0, 0, 64]).unwrap());
    let p = decode_packet(&shared.tick(4_000, 0).unwrap()).unwrap();
    assert_eq!(
        p.records,
        vec![Record { ts_us: 1_000, kind: KIND_PB, channel: 0, a: 0, b: 0, v16: 0, extra: 0 }]
    );
    assert_eq!(p.dispatch_ts_us, 4_000);
}

#[test]
fn a_second_center_bend_is_no_change() {
    let mut shared = Input::new();
    shared.handle(parse_raw(1_000, &[0xE0, 0, 64]).unwrap());
    assert!(shared.tick(4_000, 0).is_some());
    shared.handle(parse_raw(5_000, &[0xE0, 0, 64]).unwrap());
    assert!(shared.tick(8_000, 0).is_none());
}

#[test]
fn delivery_needs_a_running_input_with_delivery_enabled() {
    assert!(delivers(false, true));
    assert!(!delivers(true, true));
    assert!(!delivers(false, false));
    assert!(!delivers(true, false));
}

#[test]
fn controller_spam_collapses_to_one_record() {
    let mut shared = Input::new();
    for t in 0..1_000u64 {
        shared.handle(RawMsg { ts_us: t, status: 0xB0, data1: 1, data2: 64, len: 3 });
    }
    let p = decode_packet(&shared.tick(2_000, 0).unwrap()).unwrap();
    assert_eq!(
        p.records,
        vec![Record { ts_us: 0, kind: KIND_CC, channel: 0, a: 1, b: 64, v16: 0, extra: 0 }]
    );
}

#[test]
fn note_drops_travel_in_the_next_packet_and_reset() {
    let mut shared = Input::new();
    for i in 0..4_100u64 {
        push_note(&mut shared.notes, &mut shared.lost, i, 0, 60, 1, true);
    }
    let p = decode_packet(&shared.tick(1, 2).unwrap()).unwrap();
    assert_eq!(p.dropped_note, 4);
    assert_eq!(p.dropped_raw, 2);
    assert_eq!(p.records.len(), 4_096);
    assert_eq!(p.records[0].ts_us, 4);
    assert_eq!(shared.lost, 0);
    push_note(&mut shared.notes, &mut shared.lost, 1, 0, 60, 1, true);
    let p = decode_packet(&shared.tick(2, 0).unwrap()).unwrap();
    assert_eq!((p.dropped_raw, p.dropped_note, p.records.len()), (0, 0, 1));
}

#[test]
fn rate_zero_means_the_default() {
    assert_eq!(DEFAULT_RATE_HZ, 250);
    assert_eq!(effective_rate(0), 250);
    assert_eq!(effective_rate(1), 1);
    assert_eq!(effective_rate(1_000), 1_000);
    assert_eq!(effective_rate(u32::MAX), u32::MAX);
}

#[test]
fn period_is_a_second_over_the_rate() {
    assert_eq!(period_nanos(1), 1_000_000_000);
    assert_eq!(period_nanos(250), 4_000_000);
    assert_eq!(period_nanos(1_000), 1_000_000);
    assert_eq!(period_nanos(3), 333_333_333);
    assert_eq!(period_nanos(u32::MAX), 0);
}

#[test]
fn time_until_is_never_negative() {
    assert_eq!(time_until(100, 40), 60);
    assert_eq!(time_until(100, 100), 0);
    assert_eq!(time_until(100, 140), 0);
}

#[test]
fn deadline_advances_by_one_period() {
    assert_eq!(next_deadline(1_000, 1_000, 400), 1_400);
    assert_eq!(next_deadline(1_000, 1_001, 400), 1_400);
    assert_eq!(next_deadline(1_000, 1_400, 400), 1_400);
    assert_eq!(next_deadline(1_000, 900, 400), 1_400);
}

#[test]
fn deadline_resyncs_after_falling_behind() {
    assert_eq!(next_deadline(1_000, 1_401, 400), 1_801);
    assert_eq!(next_deadline(1_000, 50_000, 400), 50_400);
}

#[test]
fn deadline_stops_at_the_end_of_time() {
    assert_eq!(next_deadline(u64::MAX - 10, 0, 400), u64::MAX);
    assert_eq!(next_deadline(0, u64::MAX, 400), u64::MAX);
    assert_eq!(next_deadline(u64::MAX, u64::MAX, 0), u64::MAX);
}
