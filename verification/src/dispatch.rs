//! Fixed-rate dispatch: what one tick reads from the store and the queue, the
//! order in which it reports it, and when the next tick is due.

use crate::input::{lemma_records_fit, whole, NoteQueue, SharedView, NOTE_QUEUE_CAP};
use crate::packet::{encode_packet, encoding, packet_bytes, Record};
use crate::state::{lemma_clean_iff_nothing_pending, lemma_cleared_is_clean, State};
use vstd::prelude::*;

verus! {

/// `sorted` with `r` put behind every record that is not later than `r`.
pub open spec fn insert_by_ts(sorted: Seq<Record>, r: Record) -> Seq<Record>
    decreases sorted.len(),
{
    if sorted.len() == 0 {
        seq![r]
    } else if sorted.last().ts_us <= r.ts_us {
        sorted.push(r)
    } else {
        insert_by_ts(sorted.drop_last(), r).push(sorted.last())
    }
}

/// The records by ascending timestamp; records with the same timestamp
/// keep the order they had.
pub open spec fn sorted_by_ts(rs: Seq<Record>) -> Seq<Record>
    decreases rs.len(),
{
    if rs.len() == 0 {
        Seq::empty()
    } else {
        insert_by_ts(sorted_by_ts(rs.drop_last()), rs.last())
    }
}

/// Timestamps never go down along the sequence.
pub open spec fn ascending(rs: Seq<Record>) -> bool {
    forall|i: int, j: int| 0 <= i <= j < rs.len() ==> rs[i].ts_us <= rs[j].ts_us
}

/// The records of `rs` that carry the timestamp `ts`, in their order.
pub open spec fn stamped(rs: Seq<Record>, ts: u64) -> Seq<Record> {
    rs.filter(|r: Record| r.ts_us == ts)
}

/// Inserting at index `k` is what `insert_by_ts` does when everything
/// from `k` on is later than `r` and the record before `k` is not.
proof fn lemma_insert_at(sorted: Seq<Record>, r: Record, k: int)
    requires
        0 <= k <= sorted.len(),
        forall|j: int| k <= j < sorted.len() ==> sorted[j].ts_us > r.ts_us,
        k > 0 ==> sorted[k - 1].ts_us <= r.ts_us,
    ensures
        insert_by_ts(sorted, r) == sorted.insert(k, r),
    decreases sorted.len() - k,
{
    if sorted.len() == 0 {
        assert(sorted.insert(k, r) =~= seq![r]);
    } else if k == sorted.len() {
        assert(sorted.insert(k, r) =~= sorted.push(r));
    } else {
        let init = sorted.drop_last();
        lemma_insert_at(init, r, k);
        assert(sorted.insert(k, r) =~= init.insert(k, r).push(sorted.last()));
    }
}

/// Inserting into an ascending sequence gives an ascending sequence with
/// one record more, the inserted one.
proof fn lemma_insert_keeps_order(sorted: Seq<Record>, r: Record)
    requires
        ascending(sorted),
    ensures
        ascending(insert_by_ts(sorted, r)),
        insert_by_ts(sorted, r).len() == sorted.len() + 1,
        insert_by_ts(sorted, r).to_multiset() == sorted.to_multiset().insert(r),
        forall|i: int|
            0 <= i < insert_by_ts(sorted, r).len() ==> #[trigger] insert_by_ts(sorted, r)[i] == r
                || sorted.contains(insert_by_ts(sorted, r)[i]),
    decreases sorted.len(),
{
    let out = insert_by_ts(sorted, r);
    if sorted.len() == 0 {
        vstd::seq_lib::to_multiset_build(sorted, r);
        assert(out =~= sorted.push(r));
    } else if sorted.last().ts_us <= r.ts_us {
        vstd::seq_lib::to_multiset_build(sorted, r);
        assert forall|i: int| 0 <= i < out.len() implies #[trigger] out[i] == r || sorted.contains(
            out[i],
        ) by {
            if i < sorted.len() {
                assert(sorted[i] == out[i]);
            }
        }
    } else {
        let init = sorted.drop_last();
        let last = sorted.last();
        assert(ascending(init));
        lemma_insert_keeps_order(init, r);
        let mid = insert_by_ts(init, r);
        assert(out == mid.push(last));
        assert forall|i: int| 0 <= i < mid.len() implies (#[trigger] mid[i]).ts_us
            <= last.ts_us by {
            if mid[i] != r {
                let w = choose|w: int| 0 <= w < init.len() && init[w] == mid[i];
                assert(sorted[w] == init[w]);
            }
        }
        assert(sorted =~= init.push(last));
        vstd::seq_lib::to_multiset_build(init, last);
        vstd::seq_lib::to_multiset_build(mid, last);
        assert(out.to_multiset() =~= sorted.to_multiset().insert(r));
        assert forall|i: int| 0 <= i < out.len() implies #[trigger] out[i] == r || sorted.contains(
            out[i],
        ) by {
            if i < mid.len() {
                if mid[i] != r {
                    let w = choose|w: int| 0 <= w < init.len() && init[w] == mid[i];
                    assert(sorted[w] == out[i]);
                }
            } else {
                assert(sorted[sorted.len() - 1] == out[i]);
            }
        }
    }
}

/// Inserting `r` puts it behind the records that carry its timestamp and
/// leaves the records of every other timestamp as they stand.
proof fn lemma_insert_is_stable(sorted: Seq<Record>, r: Record, ts: u64)
    ensures
        stamped(insert_by_ts(sorted, r), ts) == if r.ts_us == ts {
            stamped(sorted, ts).push(r)
        } else {
            stamped(sorted, ts)
        },
    decreases sorted.len(),
{
    let pred = |x: Record| x.ts_us == ts;
    if sorted.len() == 0 {
        Seq::<Record>::empty().lemma_filter_push(r, pred);
        assert(seq![r] =~= Seq::<Record>::empty().push(r));
        assert(sorted =~= Seq::<Record>::empty());
    } else if sorted.last().ts_us <= r.ts_us {
        sorted.lemma_filter_push(r, pred);
    } else {
        let init = sorted.drop_last();
        let last = sorted.last();
        lemma_insert_is_stable(init, r, ts);
        insert_by_ts(init, r).lemma_filter_push(last, pred);
        init.lemma_filter_push(last, pred);
        assert(sorted =~= init.push(last));
        if r.ts_us == ts {
            assert(last.ts_us != ts);
        }
    }
}

/// Ordering within a packet: the sorted records are the same records, each
/// as often as before, with timestamps ascending.
pub proof fn lemma_sorted_is_ascending(rs: Seq<Record>)
    ensures
        ascending(sorted_by_ts(rs)),
        sorted_by_ts(rs).len() == rs.len(),
        sorted_by_ts(rs).to_multiset() == rs.to_multiset(),
    decreases rs.len(),
{
    if rs.len() == 0 {
        assert(rs =~= Seq::<Record>::empty());
    } else {
        lemma_sorted_is_ascending(rs.drop_last());
        lemma_insert_keeps_order(sorted_by_ts(rs.drop_last()), rs.last());
        assert(rs =~= rs.drop_last().push(rs.last()));
        vstd::seq_lib::to_multiset_build(rs.drop_last(), rs.last());
    }
}

/// Ties keep their order: for every timestamp, the records that carry it
/// stand in the sorted sequence in the order they had before.
pub proof fn lemma_sorted_is_stable(rs: Seq<Record>, ts: u64)
    ensures
        stamped(sorted_by_ts(rs), ts) == stamped(rs, ts),
    decreases rs.len(),
{
    let pred = |x: Record| x.ts_us == ts;
    if rs.len() == 0 {
        assert(rs =~= Seq::<Record>::empty());
    } else {
        lemma_sorted_is_stable(rs.drop_last(), ts);
        lemma_insert_is_stable(sorted_by_ts(rs.drop_last()), rs.last(), ts);
        rs.drop_last().lemma_filter_push(rs.last(), pred);
        assert(rs =~= rs.drop_last().push(rs.last()));
    }
}

/// Sorts records by timestamp, ascending and stable. Records mostly
/// arrive in time order already, so each one is placed by walking back
/// from the end.
pub fn sort_by_ts(records: &Vec<Record>) -> (out: Vec<Record>)
    ensures
        out@ == sorted_by_ts(records@),
{
    let mut out: Vec<Record> = Vec::new();
    let n: usize = records.len();
    let mut i: usize = 0;
    while i < n
        invariant
            i <= n,
            n == records@.len(),
            out@ == sorted_by_ts(records@.take(i as int)),
            out@.len() == i,
        decreases n - i,
    {
        let r: Record = records[i];
        let mut k: usize = out.len();
        while k > 0 && out[k - 1].ts_us > r.ts_us
            invariant
                k <= out@.len(),
                forall|j: int| k <= j < out@.len() ==> out@[j].ts_us > r.ts_us,
            decreases k,
        {
            k = k - 1;
        }
        proof {
            lemma_insert_at(out@, r, k as int);
            let next = records@.take(i + 1);
            assert(next.drop_last() =~= records@.take(i as int));
            assert(next.last() == r);
        }
        out.insert(k, r);
        i = i + 1;
    }
    proof {
        assert(records@.take(n as int) =~= records@);
    }
    out
}

/// Whether a tick has nothing to say: no record to report and no loss to
/// account for.
pub open spec fn silent(v: SharedView, dropped_raw: u32) -> bool {
    v.records().len() == 0 && dropped_raw == 0 && v.dropped_note == 0
}

/// One dispatch tick, given the counts of raw messages and of note edges
/// lost since the last tick. Empties the note queue, oldest edge first,
/// and reads every dirty parameter, clearing its mark. A silent tick gives
/// `None`: the host is not woken. Any other tick gives the packet for the
/// host: the records by ascending timestamp, ties in the order they were
/// read, under a header with the tick's timestamp and both counts.
///
/// While the note queue is within its capacity the records always fit the
/// header's count, so that the packet is never the empty fallback.
pub fn dispatch_tick(
    state: &mut State,
    notes: &mut NoteQueue,
    dispatch_ts_us: u64,
    dropped_raw: u32,
    dropped_note: u32,
) -> (packet: Option<Vec<u8>>)
    ensures
        whole(final(state)@, final(notes)@, 0) == whole(
            old(state)@,
            old(notes)@,
            dropped_note,
        ).drained(),
        packet is None <==> silent(whole(old(state)@, old(notes)@, dropped_note), dropped_raw),
        packet is Some ==> packet->Some_0@ == encoding(
            sorted_by_ts(whole(old(state)@, old(notes)@, dropped_note).records()),
            dispatch_ts_us,
            dropped_raw,
            dropped_note,
            0,
        ),
        packet is Some && old(notes)@.len() <= NOTE_QUEUE_CAP ==> packet->Some_0@ == packet_bytes(
            sorted_by_ts(whole(old(state)@, old(notes)@, dropped_note).records()),
            dispatch_ts_us,
            dropped_raw,
            dropped_note,
            0,
        ),
{
    proof {
        let v = whole(state@, notes@, dropped_note);
        if v.bounded() {
            lemma_records_fit(v);
            lemma_sorted_is_ascending(v.records());
        }
    }
    let mut records: Vec<Record> = Vec::new();
    notes.drain_into(&mut records);
    state.drain_dirty(&mut records);
    proof {
        assert(records@ =~= whole(old(state)@, old(notes)@, dropped_note).records());
    }
    if records.len() == 0 && dropped_raw == 0 && dropped_note == 0 {
        return None;
    }
    let sorted: Vec<Record> = sort_by_ts(&records);
    Some(encode_packet(&sorted, dispatch_ts_us, dropped_raw, dropped_note, 0))
}

/// A tick is silent exactly when the input is idle and no raw message was
/// lost.
pub proof fn lemma_silent_iff_idle(v: SharedView, dropped_raw: u32)
    requires
        v.state.shaped(),
    ensures
        silent(v, dropped_raw) <==> v.idle() && dropped_raw == 0,
{
    lemma_clean_iff_nothing_pending(v.state);
}

/// A tick on an idle state changes nothing, and what any tick leaves
/// behind is idle: with no new message and no new loss, the next tick is
/// silent, and so is every tick after it.
pub proof fn lemma_tick_leaves_idle(v: SharedView)
    requires
        v.state.shaped(),
    ensures
        v.drained().idle(),
        v.drained().state.shaped(),
        silent(v.drained(), 0),
        v.idle() ==> v.drained() == v,
{
    lemma_cleared_is_clean(v.state);
    lemma_clean_iff_nothing_pending(v.drained().state);
    if v.idle() {
        assert(v.notes =~= Seq::<crate::input::NoteEdge>::empty());
    }
}

/// Whether the packet that a tick made goes to the host: not once the
/// input has been asked to stop, and only while delivery is enabled.
pub fn delivers(stopped: bool, callback_enabled: bool) -> (yes: bool)
    ensures
        yes == (!stopped && callback_enabled),
{
    !stopped && callback_enabled
}

/// Ticks per second when the caller names no rate.
pub const DEFAULT_RATE_HZ: u32 = 250;

/// The rate a dispatcher runs at: the rate asked for, or the default when
/// that is zero.
pub fn effective_rate(rate_hz: u32) -> (rate: u32)
    ensures
        rate == if rate_hz == 0 {
            DEFAULT_RATE_HZ
        } else {
            rate_hz
        },
        rate > 0,
{
    if rate_hz == 0 {
        DEFAULT_RATE_HZ
    } else {
        rate_hz
    }
}

/// The time between two ticks at `rate_hz`, in whole nanoseconds.
pub fn period_nanos(rate_hz: u32) -> (period: u64)
    requires
        rate_hz > 0,
    ensures
        period == 1_000_000_000int / (rate_hz as int),
        period <= 1_000_000_000,
{
    assert(1_000_000_000int / (rate_hz as int) <= 1_000_000_000) by (nonlinear_arith)
        requires
            rate_hz > 0,
    ;
    1_000_000_000u64 / (rate_hz as u64)
}

/// `a + b`, or the largest time when that is out of range.
pub open spec fn later(a: u64, b: u64) -> u64 {
    if a + b > u64::MAX {
        u64::MAX
    } else {
        (a + b) as u64
    }
}

/// How long to sleep before the tick that is due at `deadline`.
pub fn time_until(deadline: u64, now: u64) -> (wait: u64)
    ensures
        wait == if now < deadline {
            deadline - now
        } else {
            0
        },
{
    if now < deadline {
        deadline - now
    } else {
        0
    }
}

/// The deadline after the tick that was due at `deadline` and ran at
/// `now`. Normally one period after the old deadline; a loop that has
/// fallen behind by more than a whole period starts over from `now`, so
/// that a backlog is never replayed as a burst of ticks.
pub fn next_deadline(deadline: u64, now: u64, period: u64) -> (next: u64)
    ensures
        next == if now > later(deadline, period) {
            later(now, period)
        } else {
            later(deadline, period)
        },
{
    let due: u64 = if deadline > u64::MAX - period {
        u64::MAX
    } else {
        deadline + period
    };
    if now > due {
        if now > u64::MAX - period {
            u64::MAX
        } else {
            now + period
        }
    } else {
        due
    }
}

} // verus!
