use midi_bridge::bitset::{collect_bitset, set_bit};
use midi_bridge::packet::{Record, KIND_CC, KIND_CH_PRESS, KIND_PB, KIND_POLY_PRESS, KIND_PROG};
use midi_bridge::state::{
    update_cc, update_ch_pressure, update_pitch_bend, update_poly_pressure, update_program, State,
};

fn drained(state: &mut State) -> Vec<Record> {
    let mut out = Vec::new();
    state.drain_dirty(&mut out);
    out
}

fn cc(ts_us: u64, channel: u8, ctrl: u8, val: u8) -> Record {
    Record { ts_us, kind: KIND_CC, channel, a: ctrl, b: val, v16: 0, extra: 0 }
}

#[test]
fn set_bit_picks_word_and_position() {
    let mut bits = [0u64; 2];
    set_bit(&mut bits, 0);
    assert_eq!(bits, [1, 0]);
    set_bit(&mut bits, 63);
    assert_eq!(bits, [1 | (1 << 63), 0]);
    set_bit(&mut bits, 64);
    assert_eq!(bits, [1 | (1 << 63), 1]);
    set_bit(&mut bits, 127);
    assert_eq!(bits, [1 | (1 << 63), 1 | (1 << 63)]);
    set_bit(&mut bits, 127);
    assert_eq!(bits, [1 | (1 << 63), 1 | (1 << 63)]);
}

#[test]
fn collect_bitset_lists_set_bits_ascending() {
    assert_eq!(collect_bitset([0, 0]), Vec::<u8>::new());
    assert_eq!(collect_bitset([1, 0]), vec![0]);
    assert_eq!(collect_bitset([0, 1]), vec![64]);
    assert_eq!(collect_bitset([1 << 63, 1 << 63]), vec![63, 127]);
    assert_eq!(collect_bitset([0b1010_0110, 0b11]), vec![1, 2, 5, 7, 64, 65]);
    let all = collect_bitset([u64::MAX, u64::MAX]);
    assert_eq!(all, (0..128u8).collect::<Vec<u8>>());
}

#[test]
fn collect_bitset_undoes_set_bit() {
    let picks = [127u8, 3, 64, 63, 0, 100, 3];
    let mut bits = [0u64; 2];
    for p in picks {
        set_bit(&mut bits, p);
    }
    assert_eq!(collect_bitset(bits), vec![0, 3, 63, 64, 100, 127]);
}

#[test]
fn new_state_has_nothing_to_report() {
    let mut state = State::new();
    assert!(drained(&mut state).is_empty());
    let mut other = State::default();
    assert!(drained(&mut other).is_empty());
}

#[test]
fn first_write_is_a_change_whatever_the_value() {
    let mut state = State::new();
    update_cc(&mut state, 2, 10, 0, 7);
    update_poly_pressure(&mut state, 2, 10, 0, 8);
    update_ch_pressure(&mut state, 2, 0, 9);
    update_program(&mut state, 2, 0, 10);
    assert_eq!(
        drained(&mut state),
        vec![
            cc(7, 2, 10, 0),
            Record { ts_us: 9, kind: KIND_CH_PRESS, channel: 2, a: 0, b: 0, v16: 0, extra: 0 },
            Record { ts_us: 10, kind: KIND_PROG, channel: 2, a: 0, b: 0, v16: 0, extra: 0 },
            Record { ts_us: 8, kind: KIND_POLY_PRESS, channel: 2, a: 10, b: 0, v16: 0, extra: 0 },
        ]
    );
}

#[test]
fn repeated_value_marks_nothing() {
    let mut state = State::new();
    update_cc(&mut state, 2, 10, 0, 5);
    for t in 6..50u64 {
        update_cc(&mut state, 2, 10, 0, t);
    }
    assert_eq!(drained(&mut state), vec![cc(5, 2, 10, 0)]);
    for t in 50..100u64 {
        update_cc(&mut state, 2, 10, 0, t);
    }
    assert!(drained(&mut state).is_empty());
    update_cc(&mut state, 2, 10, 64, 100);
    assert_eq!(drained(&mut state), vec![cc(100, 2, 10, 64)]);
    for t in 200..250u64 {
        update_cc(&mut state, 2, 10, 64, t);
    }
    assert!(drained(&mut state).is_empty());
}

#[test]
fn latest_value_wins_between_ticks() {
    let mut state = State::new();
    for (i, v) in [1u8, 2, 3, 2, 99].iter().enumerate() {
        update_cc(&mut state, 0, 7, *v, 10 + i as u64);
    }
    assert_eq!(drained(&mut state), vec![cc(14, 0, 7, 99)]);
    assert!(drained(&mut state).is_empty());
}

#[test]
fn repeat_after_change_keeps_the_first_timestamp() {
    let mut state = State::new();
    update_cc(&mut state, 1, 1, 5, 10);
    update_cc(&mut state, 1, 1, 5, 20);
    update_cc(&mut state, 1, 1, 5, 30);
    assert_eq!(drained(&mut state), vec![cc(10, 1, 1, 5)]);
}

#[test]
fn going_back_to_the_old_value_is_still_a_change() {
    let mut state = State::new();
    update_cc(&mut state, 0, 0, 9, 1);
    assert_eq!(drained(&mut state).len(), 1);
    update_cc(&mut state, 0, 0, 3, 2);
    update_cc(&mut state, 0, 0, 9, 3);
    assert_eq!(drained(&mut state), vec![cc(3, 0, 0, 9)]);
}

#[test]
fn pitch_bend_is_centered() {
    let mut state = State::new();
    update_pitch_bend(&mut state, 0, 0, 64, 1000);
    assert_eq!(
        drained(&mut state),
        vec![Record { ts_us: 1000, kind: KIND_PB, channel: 0, a: 0, b: 0, v16: 0, extra: 0 }]
    );
    update_pitch_bend(&mut state, 0, 0, 64, 2000);
    assert!(drained(&mut state).is_empty());
    update_pitch_bend(&mut state, 0, 0, 0, 1);
    assert_eq!(
        drained(&mut state),
        vec![Record { ts_us: 1, kind: KIND_PB, channel: 0, a: 0, b: 0, v16: -8192, extra: 0 }]
    );
    update_pitch_bend(&mut state, 0, 127, 127, 2);
    assert_eq!(
        drained(&mut state),
        vec![Record { ts_us: 2, kind: KIND_PB, channel: 0, a: 0, b: 0, v16: 8191, extra: 0 }]
    );
    update_pitch_bend(&mut state, 5, 1, 64, 3);
    assert_eq!(
        drained(&mut state),
        vec![Record { ts_us: 3, kind: KIND_PB, channel: 5, a: 0, b: 0, v16: 1, extra: 0 }]
    );
    update_pitch_bend(&mut state, 5, 0x7F, 0x3F, 4);
    assert_eq!(
        drained(&mut state),
        vec![Record { ts_us: 4, kind: KIND_PB, channel: 5, a: 0, b: 0, v16: -1, extra: 0 }]
    );
}

#[test]
fn one_channel_reports_in_the_fixed_order() {
    let mut state = State::new();
    update_poly_pressure(&mut state, 4, 100, 11, 1);
    update_poly_pressure(&mut state, 4, 2, 12, 2);
    update_program(&mut state, 4, 13, 3);
    update_ch_pressure(&mut state, 4, 14, 4);
    update_pitch_bend(&mut state, 4, 3, 64, 5);
    update_cc(&mut state, 4, 127, 15, 6);
    update_cc(&mut state, 4, 0, 16, 7);
    update_cc(&mut state, 4, 64, 17, 8);
    update_cc(&mut state, 4, 63, 18, 9);
    assert_eq!(
        drained(&mut state),
        vec![
            cc(7, 4, 0, 16),
            cc(9, 4, 63, 18),
            cc(8, 4, 64, 17),
            cc(6, 4, 127, 15),
            Record { ts_us: 5, kind: KIND_PB, channel: 4, a: 0, b: 0, v16: 3, extra: 0 },
            Record { ts_us: 4, kind: KIND_CH_PRESS, channel: 4, a: 0, b: 14, v16: 0, extra: 0 },
            Record { ts_us: 3, kind: KIND_PROG, channel: 4, a: 0, b: 13, v16: 0, extra: 0 },
            Record { ts_us: 2, kind: KIND_POLY_PRESS, channel: 4, a: 2, b: 12, v16: 0, extra: 0 },
            Record { ts_us: 1, kind: KIND_POLY_PRESS, channel: 4, a: 100, b: 11, v16: 0, extra: 0 },
        ]
    );
    assert!(drained(&mut state).is_empty());
}

#[test]
fn channels_report_in_ascending_order() {
    let mut state = State::new();
    update_cc(&mut state, 15, 1, 1, 1);
    update_program(&mut state, 0, 9, 2);
    update_cc(&mut state, 7, 1, 1, 3);
    update_cc(&mut state, 0, 1, 1, 4);
    let got = drained(&mut state);
    let channels: Vec<u8> = got.iter().map(|r| r.channel).collect();
    assert_eq!(channels, vec![0, 0, 7, 15]);
    assert_eq!(got[0].kind, KIND_CC);
    assert_eq!(got[1].kind, KIND_PROG);
}

#[test]
fn slots_do_not_touch_each_other() {
    let mut state = State::new();
    update_cc(&mut state, 3, 20, 1, 1);
    update_poly_pressure(&mut state, 3, 20, 2, 2);
    update_cc(&mut state, 4, 20, 3, 3);
    update_cc(&mut state, 3, 21, 4, 4);
    let got = drained(&mut state);
    assert_eq!(got.len(), 4);
    assert_eq!(got[0], cc(1, 3, 20, 1));
    assert_eq!(got[1], cc(4, 3, 21, 4));
    assert_eq!(
        got[2],
        Record { ts_us: 2, kind: KIND_POLY_PRESS, channel: 3, a: 20, b: 2, v16: 0, extra: 0 }
    );
    assert_eq!(got[3], cc(3, 4, 20, 3));
}

#[test]
fn controller_values_keep_all_eight_bits() {
    let mut state = State::new();
    update_cc(&mut state, 0, 1, 200, 1);
    update_poly_pressure(&mut state, 0, 1, 255, 2);
    update_ch_pressure(&mut state, 0, 128, 3);
    update_program(&mut state, 0, 129, 4);
    let got = drained(&mut state);
    let values: Vec<u8> = got.iter().map(|r| r.b).collect();
    assert_eq!(values, vec![200, 128, 129, 255]);
}

#[test]
fn drain_appends_to_what_is_there() {
    let mut state = State::new();
    update_cc(&mut state, 0, 1, 2, 3);
    let keep = cc(0, 9, 9, 9);
    let mut out = vec![keep];
    state.drain_dirty(&mut out);
    assert_eq!(out, vec![keep, cc(3, 0, 1, 2)]);
}

#[test]
fn every_slot_can_be_dirty_at_once() {
    let mut state = State::new();
    for ch in 0..16u8 {
        for i in 0..128u8 {
            update_cc(&mut state, ch, i, 1, 1);
            update_poly_pressure(&mut state, ch, i, 1, 1);
        }
        update_pitch_bend(&mut state, ch, 0, 0, 1);
        update_ch_pressure(&mut state, ch, 1, 1);
        update_program(&mut state, ch, 1, 1);
    }
    assert_eq!(drained(&mut state).len(), 16 * (128 + 3 + 128));
    assert!(drained(&mut state).is_empty());
}
