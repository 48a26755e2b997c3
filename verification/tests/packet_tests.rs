use midi_bridge::packet::{
    decode_packet, encode_packet, Record, KIND_CC, KIND_NOTE, KIND_PB, MAGIC, VERSION,
};

fn sample() -> Vec<Record> {
    vec![
        Record { ts_us: 0x0102_0304_0506_0708, kind: KIND_CC, channel: 3, a: 7, b: 100, v16: 0, extra: 0 },
        Record { ts_us: 50, kind: KIND_PB, channel: 15, a: 0, b: 0, v16: -8192, extra: 0 },
        Record { ts_us: u64::MAX, kind: KIND_NOTE, channel: 0, a: 60, b: 127, v16: 0, extra: 1 },
    ]
}

#[test]
fn empty_packet_is_a_bare_header() {
    let bytes = encode_packet(&Vec::new(), 0, 0, 0, 0);
    assert_eq!(bytes.len(), 32);
    assert_eq!(&bytes[0..4], &[0x52, 0x44, 0x49, 0x4D]);
    assert_eq!(&bytes[4..6], &[1, 0]);
    assert_eq!(&bytes[6..32], &[0u8; 26][..]);
}

#[test]
fn header_fields_sit_at_their_offsets() {
    let bytes = encode_packet(&sample(), 0x1122_3344_5566_7788, 0xAABB_CCDD, 0x0102_0304, 0xBEEF);
    assert_eq!(bytes.len(), 32 + 3 * 16);
    assert_eq!(&bytes[0..4], &MAGIC.to_le_bytes());
    assert_eq!(&bytes[4..6], &VERSION.to_le_bytes());
    assert_eq!(&bytes[6..8], &0xBEEFu16.to_le_bytes());
    assert_eq!(&bytes[8..16], &0x1122_3344_5566_7788u64.to_le_bytes());
    assert_eq!(&bytes[16..20], &0xAABB_CCDDu32.to_le_bytes());
    assert_eq!(&bytes[20..24], &0x0102_0304u32.to_le_bytes());
    assert_eq!(&bytes[24..28], &3u32.to_le_bytes());
    assert_eq!(&bytes[28..32], &[0, 0, 0, 0]);
}

#[test]
fn record_fields_sit_at_their_offsets() {
    let bytes = encode_packet(&sample(), 9, 0, 0, 0);
    let first = &bytes[32..48];
    assert_eq!(first, &[8, 7, 6, 5, 4, 3, 2, 1, 1, 3, 7, 100, 0, 0, 0, 0]);
    let second = &bytes[48..64];
    assert_eq!(&second[0..8], &50u64.to_le_bytes());
    assert_eq!(&second[8..12], &[2, 15, 0, 0]);
    assert_eq!(&second[12..14], &(-8192i16).to_le_bytes());
    assert_eq!(&second[14..16], &[0, 0]);
    let third = &bytes[64..80];
    assert_eq!(&third[0..8], &[0xFF; 8]);
    assert_eq!(&third[8..16], &[6, 0, 60, 127, 0, 0, 1, 0]);
}

#[test]
fn signed_values_use_twos_complement() {
    for v in [i16::MIN, -8192, -1, 0, 1, 8191, i16::MAX] {
        let rs = vec![Record { ts_us: 1, kind: KIND_PB, channel: 0, a: 0, b: 0, v16: v, extra: 0 }];
        let bytes = encode_packet(&rs, 0, 0, 0, 0);
        assert_eq!(&bytes[44..46], &v.to_le_bytes());
        let back = decode_packet(&bytes).unwrap();
        assert_eq!(back.records[0].v16, v);
    }
}

#[test]
fn decode_gives_back_what_was_encoded() {
    let rs = sample();
    let bytes = encode_packet(&rs, 123_456_789_012, 7, 9, 0x0102);
    let p = decode_packet(&bytes).unwrap();
    assert_eq!(p.flags, 0x0102);
    assert_eq!(p.dispatch_ts_us, 123_456_789_012);
    assert_eq!(p.dropped_raw, 7);
    assert_eq!(p.dropped_note, 9);
    assert_eq!(p.records, rs);
}

#[test]
fn decode_round_trips_many_records() {
    let mut rs = Vec::new();
    for i in 0..1000u64 {
        rs.push(Record {
            ts_us: i.wrapping_mul(0x9E37_79B9_7F4A_7C15),
            kind: (i % 6 + 1) as u8,
            channel: (i % 16) as u8,
            a: (i % 128) as u8,
            b: (i * 7 % 128) as u8,
            v16: (i as i64 * 37 - 8192) as i16,
            extra: (i % 2) as u16,
        });
    }
    let bytes = encode_packet(&rs, u64::MAX, u32::MAX, u32::MAX, u16::MAX);
    assert_eq!(bytes.len(), 32 + 16 * 1000);
    let p = decode_packet(&bytes).unwrap();
    assert_eq!(p.records, rs);
    assert_eq!(p.dispatch_ts_us, u64::MAX);
    assert_eq!(p.dropped_raw, u32::MAX);
    assert_eq!(p.dropped_note, u32::MAX);
    assert_eq!(p.flags, u16::MAX);
}

#[test]
fn decode_refuses_what_is_no_packet() {
    let good = encode_packet(&sample(), 1, 2, 3, 4);
    assert!(decode_packet(&good).is_some());
    assert!(decode_packet(&[]).is_none());
    assert!(decode_packet(&good[..31]).is_none());
    assert!(decode_packet(&good[..good.len() - 1]).is_none());
    let mut longer = good.clone();
    longer.push(0);
    assert!(decode_packet(&longer).is_none());
    let mut bad_magic = good.clone();
    bad_magic[0] ^= 1;
    assert!(decode_packet(&bad_magic).is_none());
    let mut bad_version = good.clone();
    bad_version[4] = 2;
    assert!(decode_packet(&bad_version).is_none());
    let mut bad_count = good.clone();
    bad_count[24] = 4;
    assert!(decode_packet(&bad_count).is_none());
}
