//! Wire codec: the fixed little-endian packet layout handed to the host.
//!
//! A packet is a 32-byte header followed by one 16-byte record per event.
//! The layout is stated once, as specification functions over byte
//! sequences; the encoder and the decoder are proved against it.

use vstd::prelude::*;

verus! {

/// Tag that opens every packet (the ASCII letters "MIDR" as a number).
pub const MAGIC: u32 = 0x4D494452;

/// Layout version written into every header.
pub const VERSION: u16 = 1;

/// Kind tag of a controller change.
pub const KIND_CC: u8 = 1;

/// Kind tag of a pitch bend.
pub const KIND_PB: u8 = 2;

/// Kind tag of a channel pressure.
pub const KIND_CH_PRESS: u8 = 3;

/// Kind tag of a polyphonic key pressure.
pub const KIND_POLY_PRESS: u8 = 4;

/// Kind tag of a program change.
pub const KIND_PROG: u8 = 5;

/// Kind tag of a note edge.
pub const KIND_NOTE: u8 = 6;

/// Bytes taken by the header.
pub const HEADER_LEN: usize = 32;

/// Bytes taken by one record.
pub const RECORD_LEN: usize = 16;

/// One flattened event: a parameter change or a note edge.
#[derive(Clone, Copy, Debug, PartialEq, Eq, Structural)]
pub struct Record {
    pub ts_us: u64,
    pub kind: u8,
    pub channel: u8,
    pub a: u8,
    pub b: u8,
    pub v16: i16,
    pub extra: u16,
}

/// The two bytes of `v`, least significant first.
pub open spec fn u16_le(v: u16) -> Seq<u8> {
    seq![(v % 256) as u8, (v / 256) as u8]
}

/// The four bytes of `v`, least significant first.
pub open spec fn u32_le(v: u32) -> Seq<u8> {
    seq![
        (v % 256) as u8,
        (v / 0x100 % 256) as u8,
        (v / 0x1_0000 % 256) as u8,
        (v / 0x100_0000) as u8,
    ]
}

/// The eight bytes of `v`, least significant first.
pub open spec fn u64_le(v: u64) -> Seq<u8> {
    u32_le((v % 0x1_0000_0000) as u32) + u32_le((v / 0x1_0000_0000) as u32)
}

/// The two's complement bit pattern of `v`, as an unsigned number.
pub open spec fn i16_bits(v: i16) -> u16 {
    if v >= 0 {
        v as u16
    } else {
        (v + 0x1_0000) as u16
    }
}

/// The sixteen bytes of one record.
pub open spec fn record_bytes(r: Record) -> Seq<u8> {
    u64_le(r.ts_us) + seq![r.kind, r.channel, r.a, r.b] + u16_le(i16_bits(r.v16)) + u16_le(
        r.extra,
    )
}

/// The bytes of a record list: each record's bytes, in order.
pub open spec fn records_bytes(rs: Seq<Record>) -> Seq<u8>
    decreases rs.len(),
{
    if rs.len() == 0 {
        Seq::empty()
    } else {
        records_bytes(rs.drop_last()) + record_bytes(rs.last())
    }
}

/// The thirty-two bytes of a header.
pub open spec fn header_bytes(
    flags: u16,
    dispatch_ts_us: u64,
    dropped_raw: u32,
    dropped_note: u32,
    count: u32,
) -> Seq<u8> {
    u32_le(MAGIC) + u16_le(VERSION) + u16_le(flags) + u64_le(dispatch_ts_us) + u32_le(dropped_raw)
        + u32_le(dropped_note) + u32_le(count) + u32_le(0)
}

/// The bytes of a whole packet. Meaningful while the record count fits the
/// header's 32-bit field.
pub open spec fn packet_bytes(
    rs: Seq<Record>,
    dispatch_ts_us: u64,
    dropped_raw: u32,
    dropped_note: u32,
    flags: u16,
) -> Seq<u8> {
    header_bytes(flags, dispatch_ts_us, dropped_raw, dropped_note, rs.len() as u32)
        + records_bytes(rs)
}

/// What the encoder writes for any record list: the packet, or nothing
/// when the list is too long for the header's count.
pub open spec fn encoding(
    rs: Seq<Record>,
    dispatch_ts_us: u64,
    dropped_raw: u32,
    dropped_note: u32,
    flags: u16,
) -> Seq<u8> {
    if rs.len() <= u32::MAX {
        packet_bytes(rs, dispatch_ts_us, dropped_raw, dropped_note, flags)
    } else {
        Seq::empty()
    }
}

/// Appends `v` as two bytes, least significant first.
pub fn push_u16(buf: &mut Vec<u8>, v: u16)
    ensures
        final(buf)@ == old(buf)@ + u16_le(v),
{
    buf.push((v % 256) as u8);
    buf.push((v / 256) as u8);
    assert(buf@ =~= old(buf)@ + u16_le(v));
}

/// Appends `v` as four bytes, least significant first.
pub fn push_u32(buf: &mut Vec<u8>, v: u32)
    ensures
        final(buf)@ == old(buf)@ + u32_le(v),
{
    buf.push((v % 256) as u8);
    buf.push((v / 0x100 % 256) as u8);
    buf.push((v / 0x1_0000 % 256) as u8);
    buf.push((v / 0x100_0000) as u8);
    assert(buf@ =~= old(buf)@ + u32_le(v));
}

/// Appends `v` as eight bytes, least significant first.
pub fn push_u64(buf: &mut Vec<u8>, v: u64)
    ensures
        final(buf)@ == old(buf)@ + u64_le(v),
{
    push_u32(buf, (v % 0x1_0000_0000) as u32);
    push_u32(buf, (v / 0x1_0000_0000) as u32);
    assert(buf@ =~= old(buf)@ + u64_le(v));
}

/// Appends `v` in two's complement as two bytes, least significant first.
pub fn push_i16(buf: &mut Vec<u8>, v: i16)
    ensures
        final(buf)@ == old(buf)@ + u16_le(i16_bits(v)),
{
    let bits: u16 = if v >= 0 {
        v as u16
    } else {
        (v as i32 + 0x1_0000) as u16
    };
    push_u16(buf, bits);
}

/// Appends the sixteen bytes of one record.
fn push_record(buf: &mut Vec<u8>, r: &Record)
    ensures
        final(buf)@ == old(buf)@ + record_bytes(*r),
{
    push_u64(buf, r.ts_us);
    buf.push(r.kind);
    buf.push(r.channel);
    buf.push(r.a);
    buf.push(r.b);
    push_i16(buf, r.v16);
    push_u16(buf, r.extra);
    assert(buf@ =~= old(buf)@ + record_bytes(*r));
}

/// Encodes one packet: the header, then every record in the order given.
///
/// A record list too long for the header's 32-bit count cannot be
/// represented; the result is then the empty buffer.
pub fn encode_packet(
    records: &Vec<Record>,
    dispatch_ts_us: u64,
    dropped_raw: u32,
    dropped_note: u32,
    flags: u16,
) -> (buf: Vec<u8>)
    ensures
        buf@ == encoding(records@, dispatch_ts_us, dropped_raw, dropped_note, flags),
{
    let mut buf: Vec<u8> = Vec::new();
    let n: usize = records.len();
    if n > 0xFFFF_FFFF {
        return buf;
    }
    push_u32(&mut buf, MAGIC);
    push_u16(&mut buf, VERSION);
    push_u16(&mut buf, flags);
    push_u64(&mut buf, dispatch_ts_us);
    push_u32(&mut buf, dropped_raw);
    push_u32(&mut buf, dropped_note);
    push_u32(&mut buf, n as u32);
    push_u32(&mut buf, 0);
    let ghost header = buf@;
    assert(header =~= header_bytes(flags, dispatch_ts_us, dropped_raw, dropped_note, n as u32));
    let mut i: usize = 0;
    while i < n
        invariant
            i <= n,
            n == records@.len(),
            buf@ == header + records_bytes(records@.take(i as int)),
        decreases n - i,
    {
        push_record(&mut buf, &records[i]);
        proof {
            let next = records@.take(i + 1);
            assert(next.drop_last() =~= records@.take(i as int));
            assert(next.last() == records@[i as int]);
            assert(buf@ =~= header + records_bytes(next));
        }
        i = i + 1;
    }
    assert(records@.take(n as int) =~= records@);
    buf
}

/// A packet taken apart again: the header's fields and the records.
#[derive(Debug)]
pub struct Packet {
    pub flags: u16,
    pub dispatch_ts_us: u64,
    pub dropped_raw: u32,
    pub dropped_note: u32,
    pub records: Vec<Record>,
}

/// What a `Packet` holds, with the records as a sequence.
pub struct PacketView {
    pub flags: u16,
    pub dispatch_ts_us: u64,
    pub dropped_raw: u32,
    pub dropped_note: u32,
    pub records: Seq<Record>,
}

impl View for Packet {
    type V = PacketView;

    open spec fn view(&self) -> PacketView {
        PacketView {
            flags: self.flags,
            dispatch_ts_us: self.dispatch_ts_us,
            dropped_raw: self.dropped_raw,
            dropped_note: self.dropped_note,
            records: self.records@,
        }
    }
}

/// The number whose two little-endian bytes stand at `at`.
pub open spec fn read_u16(b: Seq<u8>, at: int) -> u16 {
    (b[at] + 0x100 * b[at + 1]) as u16
}

/// The number whose four little-endian bytes stand at `at`.
pub open spec fn read_u32(b: Seq<u8>, at: int) -> u32 {
    (b[at] + 0x100 * b[at + 1] + 0x1_0000 * b[at + 2] + 0x100_0000 * b[at + 3]) as u32
}

/// The number whose eight little-endian bytes stand at `at`.
pub open spec fn read_u64(b: Seq<u8>, at: int) -> u64 {
    (read_u32(b, at) + 0x1_0000_0000 * read_u32(b, at + 4)) as u64
}

/// The signed number with the two's complement bit pattern `u`.
pub open spec fn bits_i16(u: u16) -> i16 {
    if u < 0x8000 {
        u as i16
    } else {
        (u - 0x1_0000) as i16
    }
}

/// The record whose sixteen bytes stand at `at`.
pub open spec fn read_record(b: Seq<u8>, at: int) -> Record {
    Record {
        ts_us: read_u64(b, at),
        kind: b[at + 8],
        channel: b[at + 9],
        a: b[at + 10],
        b: b[at + 11],
        v16: bits_i16(read_u16(b, at + 12)),
        extra: read_u16(b, at + 14),
    }
}

/// A byte sequence is a packet when it opens with the magic tag and the
/// version, and is exactly as long as its record count says.
pub open spec fn well_formed(b: Seq<u8>) -> bool {
    &&& b.len() >= HEADER_LEN
    &&& read_u32(b, 0) == MAGIC
    &&& read_u16(b, 4) == VERSION
    &&& b.len() == HEADER_LEN + RECORD_LEN * read_u32(b, 24)
}

/// The fields of a well-formed packet, read at their offsets.
pub open spec fn parse(b: Seq<u8>) -> PacketView {
    PacketView {
        flags: read_u16(b, 6),
        dispatch_ts_us: read_u64(b, 8),
        dropped_raw: read_u32(b, 16),
        dropped_note: read_u32(b, 20),
        records: Seq::new(
            read_u32(b, 24) as nat,
            |i: int| read_record(b, HEADER_LEN + RECORD_LEN * i),
        ),
    }
}

/// Reads two little-endian bytes at `at`.
fn get_u16(b: &[u8], at: usize) -> (v: u16)
    requires
        at + 2 <= b@.len(),
    ensures
        v == read_u16(b@, at as int),
{
    b[at] as u16 + 0x100 * (b[at + 1] as u16)
}

/// Reads four little-endian bytes at `at`.
fn get_u32(b: &[u8], at: usize) -> (v: u32)
    requires
        at + 4 <= b@.len(),
    ensures
        v == read_u32(b@, at as int),
{
    b[at] as u32 + 0x100 * (b[at + 1] as u32) + 0x1_0000 * (b[at + 2] as u32) + 0x100_0000 * (b[at
        + 3] as u32)
}

/// Reads eight little-endian bytes at `at`.
fn get_u64(b: &[u8], at: usize) -> (v: u64)
    requires
        at + 8 <= b@.len() <= usize::MAX,
    ensures
        v == read_u64(b@, at as int),
{
    get_u32(b, at) as u64 + 0x1_0000_0000 * (get_u32(b, at + 4) as u64)
}

/// Reads the record whose sixteen bytes stand at `at`.
fn get_record(b: &[u8], at: usize) -> (r: Record)
    requires
        at + 16 <= b@.len() <= usize::MAX,
    ensures
        r == read_record(b@, at as int),
{
    let bits: u16 = get_u16(b, at + 12);
    let v16: i16 = if bits < 0x8000 {
        bits as i16
    } else {
        (bits as i32 - 0x1_0000) as i16
    };
    Record {
        ts_us: get_u64(b, at),
        kind: b[at + 8],
        channel: b[at + 9],
        a: b[at + 10],
        b: b[at + 11],
        v16,
        extra: get_u16(b, at + 14),
    }
}

/// Decodes a packet strictly by field offsets. Bytes that are no packet
/// (too short, wrong tag or version, a length that disagrees with the record
/// count) give `None`.
pub fn decode_packet(bytes: &[u8]) -> (out: Option<Packet>)
    ensures
        out is Some <==> well_formed(bytes@),
        out is Some ==> out->Some_0@ == parse(bytes@),
{
    let len: usize = bytes.len();
    if len < HEADER_LEN {
        return None;
    }
    if get_u32(bytes, 0) != MAGIC || get_u16(bytes, 4) != VERSION {
        return None;
    }
    let count: u32 = get_u32(bytes, 24);
    if len as u64 != 32 + 16 * (count as u64) {
        return None;
    }
    let mut records: Vec<Record> = Vec::new();
    let mut i: usize = 0;
    while i < count as usize
        invariant
            i <= count,
            len == bytes@.len(),
            len == 32 + 16 * count,
            records@.len() == i,
            forall|k: int|
                0 <= k < i ==> #[trigger] records@[k] == read_record(bytes@, 32 + 16 * k),
        decreases count - i,
    {
        let r = get_record(bytes, 32 + 16 * i);
        records.push(r);
        i = i + 1;
    }
    let out = Packet {
        flags: get_u16(bytes, 6),
        dispatch_ts_us: get_u64(bytes, 8),
        dropped_raw: get_u32(bytes, 16),
        dropped_note: get_u32(bytes, 20),
        records,
    };
    assert(out@.records =~= parse(bytes@).records);
    Some(out)
}

/// Every record takes sixteen bytes.
pub proof fn lemma_records_bytes_len(rs: Seq<Record>)
    ensures
        records_bytes(rs).len() == RECORD_LEN * rs.len(),
    decreases rs.len(),
{
    if rs.len() > 0 {
        lemma_records_bytes_len(rs.drop_last());
    }
}

/// The bytes of record `i` stand at offset `16 * i` of the record area.
pub proof fn lemma_records_bytes_at(rs: Seq<Record>, i: int)
    requires
        0 <= i < rs.len(),
    ensures
        records_bytes(rs).len() == RECORD_LEN * rs.len(),
        records_bytes(rs).subrange(RECORD_LEN * i, RECORD_LEN * i + RECORD_LEN) == record_bytes(
            rs[i],
        ),
    decreases rs.len(),
{
    lemma_records_bytes_len(rs);
    lemma_records_bytes_len(rs.drop_last());
    let all = records_bytes(rs);
    let head = records_bytes(rs.drop_last());
    if i == rs.len() - 1 {
        assert(all.subrange(16 * i, 16 * i + 16) =~= record_bytes(rs.last()));
    } else {
        lemma_records_bytes_at(rs.drop_last(), i);
        assert(all.subrange(16 * i, 16 * i + 16) =~= head.subrange(16 * i, 16 * i + 16));
    }
}

/// A 32-bit number is the sum of its four bytes, each at its weight.
proof fn lemma_u32_parts(v: u32)
    ensures
        (v % 256) + 0x100 * (v / 0x100 % 256) + 0x1_0000 * (v / 0x1_0000 % 256) + 0x100_0000 * (v
            / 0x100_0000) == v,
        v / 0x100_0000 < 256,
{
    assert((v % 256) + 0x100 * (v / 0x100 % 256) + 0x1_0000 * (v / 0x1_0000 % 256) + 0x100_0000
        * (v / 0x100_0000) == v) by (bit_vector);
    assert(v / 0x100_0000 < 256) by (bit_vector);
}

/// Reading two bytes from the place where `v` was written gives `v`.
pub proof fn lemma_read_u16(b: Seq<u8>, at: int, v: u16)
    requires
        0 <= at,
        at + 2 <= b.len(),
        b.subrange(at, at + 2) == u16_le(v),
    ensures
        read_u16(b, at) == v,
{
    let w = b.subrange(at, at + 2);
    assert(w[0] == b[at] && w[1] == b[at + 1]);
}

/// Reading four bytes from the place where `v` was written gives `v`.
pub proof fn lemma_read_u32(b: Seq<u8>, at: int, v: u32)
    requires
        0 <= at,
        at + 4 <= b.len(),
        b.subrange(at, at + 4) == u32_le(v),
    ensures
        read_u32(b, at) == v,
{
    let w = b.subrange(at, at + 4);
    assert(w[0] == b[at] && w[1] == b[at + 1] && w[2] == b[at + 2] && w[3] == b[at + 3]);
    lemma_u32_parts(v);
}

/// Reading eight bytes from the place where `v` was written gives `v`.
pub proof fn lemma_read_u64(b: Seq<u8>, at: int, v: u64)
    requires
        0 <= at,
        at + 8 <= b.len(),
        b.subrange(at, at + 8) == u64_le(v),
    ensures
        read_u64(b, at) == v,
{
    let lo = (v % 0x1_0000_0000) as u32;
    let hi = (v / 0x1_0000_0000) as u32;
    assert(b.subrange(at, at + 4) =~= b.subrange(at, at + 8).subrange(0, 4));
    assert(b.subrange(at + 4, at + 8) =~= b.subrange(at, at + 8).subrange(4, 8));
    assert(u64_le(v).subrange(0, 4) =~= u32_le(lo));
    assert(u64_le(v).subrange(4, 8) =~= u32_le(hi));
    lemma_read_u32(b, at, lo);
    lemma_read_u32(b, at + 4, hi);
}

/// Reading a record from the place where its bytes stand gives it back.
pub proof fn lemma_read_record(b: Seq<u8>, at: int, r: Record)
    requires
        0 <= at,
        at + RECORD_LEN <= b.len(),
        b.subrange(at, at + RECORD_LEN) == record_bytes(r),
    ensures
        read_record(b, at) == r,
{
    let w = b.subrange(at, at + 16);
    let mid = seq![r.kind, r.channel, r.a, r.b];
    assert(u64_le(r.ts_us).len() == 8);
    assert(b.subrange(at, at + 8) =~= w.subrange(0, 8));
    assert(w.subrange(0, 8) =~= u64_le(r.ts_us));
    lemma_read_u64(b, at, r.ts_us);
    assert(b.subrange(at + 12, at + 14) =~= w.subrange(12, 14));
    assert(w.subrange(12, 14) =~= u16_le(i16_bits(r.v16)));
    lemma_read_u16(b, at + 12, i16_bits(r.v16));
    assert(b.subrange(at + 14, at + 16) =~= w.subrange(14, 16));
    assert(w.subrange(14, 16) =~= u16_le(r.extra));
    lemma_read_u16(b, at + 14, r.extra);
    assert(w[8] == b[at + 8] && w[9] == b[at + 9] && w[10] == b[at + 10] && w[11] == b[at + 11]);
    assert(w[8] == mid[0] && w[9] == mid[1] && w[10] == mid[2] && w[11] == mid[3]);
    assert(bits_i16(i16_bits(r.v16)) == r.v16);
}

/// Round trip: a packet written from a record list and header fields reads
/// back as exactly those fields and those records, and its record count is
/// the length of the list.
pub proof fn lemma_decode_encode(
    rs: Seq<Record>,
    dispatch_ts_us: u64,
    dropped_raw: u32,
    dropped_note: u32,
    flags: u16,
)
    requires
        rs.len() <= u32::MAX,
    ensures
        well_formed(packet_bytes(rs, dispatch_ts_us, dropped_raw, dropped_note, flags)),
        read_u32(packet_bytes(rs, dispatch_ts_us, dropped_raw, dropped_note, flags), 24)
            == rs.len(),
        parse(packet_bytes(rs, dispatch_ts_us, dropped_raw, dropped_note, flags)) == (PacketView {
            flags,
            dispatch_ts_us,
            dropped_raw,
            dropped_note,
            records: rs,
        }),
{
    let b = packet_bytes(rs, dispatch_ts_us, dropped_raw, dropped_note, flags);
    let count = rs.len() as u32;
    let h = header_bytes(flags, dispatch_ts_us, dropped_raw, dropped_note, count);
    let body = records_bytes(rs);
    lemma_records_bytes_len(rs);
    assert(h.len() == 32);
    assert(b.subrange(0, 32) =~= h);
    assert(b.subrange(0, 4) =~= h.subrange(0, 4));
    assert(h.subrange(0, 4) =~= u32_le(MAGIC));
    lemma_read_u32(b, 0, MAGIC);
    assert(b.subrange(4, 6) =~= h.subrange(4, 6));
    assert(h.subrange(4, 6) =~= u16_le(VERSION));
    lemma_read_u16(b, 4, VERSION);
    assert(b.subrange(6, 8) =~= h.subrange(6, 8));
    assert(h.subrange(6, 8) =~= u16_le(flags));
    lemma_read_u16(b, 6, flags);
    assert(b.subrange(8, 16) =~= h.subrange(8, 16));
    assert(h.subrange(8, 16) =~= u64_le(dispatch_ts_us));
    lemma_read_u64(b, 8, dispatch_ts_us);
    assert(b.subrange(16, 20) =~= h.subrange(16, 20));
    assert(h.subrange(16, 20) =~= u32_le(dropped_raw));
    lemma_read_u32(b, 16, dropped_raw);
    assert(b.subrange(20, 24) =~= h.subrange(20, 24));
    assert(h.subrange(20, 24) =~= u32_le(dropped_note));
    lemma_read_u32(b, 20, dropped_note);
    assert(b.subrange(24, 28) =~= h.subrange(24, 28));
    assert(h.subrange(24, 28) =~= u32_le(count));
    lemma_read_u32(b, 24, count);
    let got = parse(b).records;
    assert forall|i: int| 0 <= i < rs.len() implies got[i] == rs[i] by {
        lemma_records_bytes_at(rs, i);
        assert(b.subrange(32 + 16 * i, 32 + 16 * i + 16) =~= body.subrange(16 * i, 16 * i + 16));
        lemma_read_record(b, 32 + 16 * i, rs[i]);
    }
    assert(got =~= rs);
}

} // verus!
