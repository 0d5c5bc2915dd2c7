//! Replaying a file's whole edit history: packets are applied in version
//! order to one buffer, and the buffer is flushed to a snapshot every time
//! the packets cross into a new timestamp bucket.

use crate::jsonlog::OtLogEntry;
use crate::ot::{crc32_of, spec_apply_packet, OtError, OtOp, OtPacket, TextBuffer};
use crate::timefmt::{datetime_display_of, format_unix_ts, TS_FORMAT_MAX, TS_FORMAT_MIN};
use crate::timestamp::{normalize_ts, spec_normalize_ts, BUCKET_WIDTH_HALF};
use vstd::prelude::*;

verus! {

/// The contents of one file at the end of one timestamp bucket.
#[derive(Debug, Clone, PartialEq, Eq)]
pub struct Snapshot {
    pub bucket: i64,
    pub content: String,
}

impl View for Snapshot {
    type V = (int, Seq<char>);

    open spec fn view(&self) -> (int, Seq<char>) {
        (self.bucket as int, self.content@)
    }
}

/// The text after replaying every packet in order, or the first error.
pub open spec fn spec_replay(text: Seq<char>, packets: Seq<OtPacket>) -> Result<Seq<char>, OtError>
    decreases packets.len(),
{
    if packets.len() == 0 {
        Ok(text)
    } else {
        match spec_apply_packet(text, packets[0]) {
            Ok(t) => spec_replay(t, packets.skip(1)),
            Err(e) => Err(e),
        }
    }
}

/// One step of the bucketing loop: before a packet in a new bucket is
/// applied, the buffer as it stands is flushed under the bucket that just
/// ended; a final flush closes the last bucket.
pub open spec fn spec_bucket_loop(
    text: Seq<char>,
    cur: int,
    packets: Seq<OtPacket>,
    origin: int,
    acc: Seq<(int, Seq<char>)>,
) -> Result<Seq<(int, Seq<char>)>, OtError>
    decreases packets.len(),
{
    if packets.len() == 0 {
        Ok(acc.push((cur, text)))
    } else {
        let b = spec_normalize_ts(packets[0].committed_at as int, origin);
        let acc2 = if b != cur {
            acc.push((cur, text))
        } else {
            acc
        };
        let cur2 = if b != cur {
            b
        } else {
            cur
        };
        match spec_apply_packet(text, packets[0]) {
            Ok(t) => spec_bucket_loop(t, cur2, packets.skip(1), origin, acc2),
            Err(e) => Err(e),
        }
    }
}

/// The snapshots that replaying `packets` from an empty buffer produces:
/// one per bucket, each holding the text at the end of that bucket. No
/// packets means no snapshots.
pub open spec fn spec_snapshots(packets: Seq<OtPacket>, origin: int) -> Result<
    Seq<(int, Seq<char>)>,
    OtError,
> {
    if packets.len() == 0 {
        Ok(Seq::empty())
    } else {
        spec_bucket_loop(
            Seq::empty(),
            spec_normalize_ts(packets[0].committed_at as int, origin),
            packets,
            origin,
            Seq::empty(),
        )
    }
}

/// Replays a file's packets from an empty buffer, flushing a snapshot at
/// every bucket change and once at the end, exactly as `spec_snapshots`
/// lays it out. A packet that fails to apply aborts the whole history.
pub fn replay_history(packets: &Vec<OtPacket>, origin: i64) -> (r: Result<Vec<Snapshot>, OtError>)
    requires
        origin >= 0,
        forall|i: int|
            0 <= i < packets@.len() ==> packets@[i].committed_at <= i64::MAX - BUCKET_WIDTH_HALF,
    ensures
        match r {
            Ok(snaps) => spec_snapshots(packets@, origin as int) == Ok::<
                Seq<(int, Seq<char>)>,
                OtError,
            >(snaps@.map_values(|s: Snapshot| s@)),
            Err(e) => spec_snapshots(packets@, origin as int) == Err::<
                Seq<(int, Seq<char>)>,
                OtError,
            >(e),
        },
{
    let mut snaps: Vec<Snapshot> = Vec::new();
    let n: usize = packets.len();
    if n == 0 {
        proof {
            assert(snaps@.map_values(|s: Snapshot| s@) =~= Seq::<(int, Seq<char>)>::empty());
        }
        return Ok(snaps);
    }
    let mut buf = TextBuffer::new();
    let mut cur: i64 = normalize_ts(packets[0].committed_at, origin);
    let mut i: usize = 0;
    proof {
        assert(packets@.skip(0) =~= packets@);
        assert(snaps@.map_values(|s: Snapshot| s@) =~= Seq::<(int, Seq<char>)>::empty());
    }
    while i < n
        invariant
            i <= n,
            n == packets@.len(),
            origin >= 0,
            forall|k: int|
                0 <= k < packets@.len() ==> packets@[k].committed_at <= i64::MAX
                    - BUCKET_WIDTH_HALF,
            spec_snapshots(packets@, origin as int) == spec_bucket_loop(
                buf@,
                cur as int,
                packets@.skip(i as int),
                origin as int,
                snaps@.map_values(|s: Snapshot| s@),
            ),
        decreases n - i,
    {
        let ghost packets_left = packets@.skip(i as int);
        proof {
            assert(packets_left[0] == packets@[i as int]);
            assert(packets_left.skip(1) =~= packets@.skip(i as int + 1));
        }
        let b = normalize_ts(packets[i].committed_at, origin);
        if b != cur {
            let content = buf.contents();
            let ghost old_mapped = snaps@.map_values(|s: Snapshot| s@);
            snaps.push(Snapshot { bucket: cur, content });
            proof {
                assert(snaps@.map_values(|s: Snapshot| s@) =~= old_mapped.push(
                    (cur as int, buf@),
                ));
            }
            cur = b;
        }
        match buf.apply_packet(&packets[i]) {
            Ok(()) => {},
            Err(e) => {
                return Err(e);
            },
        }
        i = i + 1;
    }
    proof {
        assert(packets@.skip(n as int) =~= Seq::<OtPacket>::empty());
    }
    let content = buf.contents();
    let ghost old_mapped = snaps@.map_values(|s: Snapshot| s@);
    snaps.push(Snapshot { bucket: cur, content });
    proof {
        assert(snaps@.map_values(|s: Snapshot| s@) =~= old_mapped.push((cur as int, buf@)));
    }
    Ok(snaps)
}

/// Replaying a history succeeds exactly when the bucketing loop does, with
/// the same error otherwise; on success the loop's last snapshot holds the
/// fully replayed text.
pub proof fn lemma_bucket_loop_replay(
    text: Seq<char>,
    cur: int,
    packets: Seq<OtPacket>,
    origin: int,
    acc: Seq<(int, Seq<char>)>,
)
    ensures
        spec_bucket_loop(text, cur, packets, origin, acc) is Ok <==> spec_replay(
            text,
            packets,
        ) is Ok,
        spec_bucket_loop(text, cur, packets, origin, acc) is Err ==> spec_bucket_loop(
            text,
            cur,
            packets,
            origin,
            acc,
        )->Err_0 == spec_replay(text, packets)->Err_0,
        spec_bucket_loop(text, cur, packets, origin, acc) matches Ok(snaps) ==> snaps.len() > acc.len()
            && snaps.last().1 == spec_replay(text, packets)->Ok_0,
    decreases packets.len(),
{
    if packets.len() == 0 {
    } else {
        match spec_apply_packet(text, packets[0]) {
            Ok(t) => {
                let b = spec_normalize_ts(packets[0].committed_at as int, origin);
                let acc2 = if b != cur {
                    acc.push((cur, text))
                } else {
                    acc
                };
                let cur2 = if b != cur {
                    b
                } else {
                    cur
                };
                lemma_bucket_loop_replay(t, cur2, packets.skip(1), origin, acc2);
            },
            Err(_) => {},
        }
    }
}

/// When every packet of a non-empty history applies cleanly, the CRC-32 of
/// the fully replayed text equals the CRC-32 carried by the last packet.
pub proof fn lemma_replay_final_crc(text: Seq<char>, packets: Seq<OtPacket>)
    requires
        packets.len() > 0,
        spec_replay(text, packets) is Ok,
    ensures
        crc32_of(spec_replay(text, packets)->Ok_0) == packets.last().crc32,
    decreases packets.len(),
{
    let t = spec_apply_packet(text, packets[0])->Ok_0;
    if packets.len() == 1 {
        assert(packets.skip(1) =~= Seq::<OtPacket>::empty());
    } else {
        assert(packets.skip(1).last() == packets.last());
        lemma_replay_final_crc(t, packets.skip(1));
    }
}


/// Copies one op.
fn copy_op(op: &OtOp) -> (r: OtOp)
    ensures
        r == *op,
{
    match op {
        OtOp::Insert(s) => OtOp::Insert(s.clone()),
        OtOp::Skip(n) => OtOp::Skip(*n),
        OtOp::Delete(n) => OtOp::Delete(*n),
    }
}

/// One archived entry carries its packet's ops, checksum, raw timestamp
/// and version, plus the bucketed timestamp rendered as text.
pub open spec fn spec_entry_of_packet(e: OtLogEntry, p: OtPacket, origin: int) -> bool {
    &&& e.ops@ == p.ops@
    &&& e.crc32 == p.crc32
    &&& e.timestamp == p.committed_at
    &&& e.version == p.version
    &&& e.ts_string@ == datetime_display_of(spec_normalize_ts(p.committed_at as int, origin))
}

/// Whether a packet's bucketed timestamp can be rendered at all.
pub open spec fn spec_bucket_renderable(p: OtPacket, origin: int) -> bool {
    TS_FORMAT_MIN <= spec_normalize_ts(p.committed_at as int, origin) <= TS_FORMAT_MAX
}

/// Builds the archived log for one file: each packet becomes one entry
/// whose rendered timestamp is the packet's bucket. Nothing is built if
/// any bucket falls outside the years the renderer supports.
pub fn history_log_entries(packets: &Vec<OtPacket>, origin: i64) -> (r: Option<Vec<OtLogEntry>>)
    requires
        origin >= 0,
        forall|i: int|
            0 <= i < packets@.len() ==> packets@[i].committed_at <= i64::MAX - BUCKET_WIDTH_HALF,
    ensures
        r is Some <==> forall|i: int|
            0 <= i < packets@.len() ==> spec_bucket_renderable(packets@[i], origin as int),
        r matches Some(es) ==> es@.len() == packets@.len() && forall|i: int|
            0 <= i < packets@.len() ==> spec_entry_of_packet(
                es@[i],
                packets@[i],
                origin as int,
            ),
{
    let n = packets.len();
    let mut es: Vec<OtLogEntry> = Vec::new();
    let mut i: usize = 0;
    while i < n
        invariant
            i <= n,
            n == packets@.len(),
            origin >= 0,
            forall|k: int|
                0 <= k < packets@.len() ==> packets@[k].committed_at <= i64::MAX
                    - BUCKET_WIDTH_HALF,
            es@.len() == i,
            forall|k: int|
                0 <= k < i ==> spec_entry_of_packet(es@[k], packets@[k], origin as int),
            forall|k: int| 0 <= k < i ==> spec_bucket_renderable(packets@[k], origin as int),
        decreases n - i,
    {
        let p = &packets[i];
        let bucket = normalize_ts(p.committed_at, origin);
        let ts_string = match format_unix_ts(bucket) {
            Some(s) => s,
            None => {
                return None;
            },
        };
        let m = p.ops.len();
        let mut ops: Vec<OtOp> = Vec::new();
        let mut k: usize = 0;
        while k < m
            invariant
                k <= m,
                m == p.ops@.len(),
                ops@ =~= p.ops@.take(k as int),
            decreases m - k,
        {
            ops.push(copy_op(&p.ops[k]));
            proof {
                assert(ops@ =~= p.ops@.take(k as int + 1));
            }
            k = k + 1;
        }
        proof {
            assert(p.ops@.take(m as int) =~= p.ops@);
        }
        es.push(
            OtLogEntry {
                ops,
                crc32: p.crc32,
                timestamp: p.committed_at,
                ts_string,
                version: p.version,
            },
        );
        i = i + 1;
    }
    Some(es)
}


/// Replaying one more packet applies it to the replay of the rest.
pub proof fn lemma_replay_snoc(text: Seq<char>, ps: Seq<OtPacket>, p: OtPacket)
    ensures
        spec_replay(text, ps.push(p)) == match spec_replay(text, ps) {
            Ok(t) => spec_apply_packet(t, p),
            Err(e) => Err(e),
        },
    decreases ps.len(),
{
    if ps.len() == 0 {
        assert(ps.push(p)[0] == p);
        assert(ps.push(p).skip(1) =~= Seq::<OtPacket>::empty());
        assert(spec_replay(text, ps) == Ok::<Seq<char>, OtError>(text));
        match spec_apply_packet(text, p) {
            Ok(t) => {
                assert(spec_replay(t, Seq::<OtPacket>::empty()) == Ok::<Seq<char>, OtError>(t));
                assert(spec_replay(text, ps.push(p)) == spec_apply_packet(text, p));
            },
            Err(e) => {
                assert(spec_replay(text, ps.push(p)) == Err::<Seq<char>, OtError>(e));
            },
        }
    } else {
        assert(ps.push(p)[0] == ps[0]);
        assert(ps.push(p).skip(1) =~= ps.skip(1).push(p));
        match spec_apply_packet(text, ps[0]) {
            Ok(t) => {
                lemma_replay_snoc(t, ps.skip(1), p);
            },
            Err(e) => {},
        }
    }
}

/// When every packet of a non-empty history applies cleanly, there is at
/// least one snapshot and the last one's CRC-32 equals the CRC-32 of the
/// last packet.
pub proof fn lemma_snapshots_final_crc(packets: Seq<OtPacket>, origin: int)
    requires
        packets.len() > 0,
        spec_snapshots(packets, origin) is Ok,
    ensures
        spec_snapshots(packets, origin)->Ok_0.len() >= 1,
        crc32_of(spec_snapshots(packets, origin)->Ok_0.last().1) == packets.last().crc32,
{
    let cur0 = spec_normalize_ts(packets[0].committed_at as int, origin);
    lemma_bucket_loop_replay(Seq::empty(), cur0, packets, origin, Seq::empty());
    lemma_replay_final_crc(Seq::empty(), packets);
}

/// Raw timestamps that never go backwards keep their buckets from going
/// backwards either.
pub open spec fn buckets_monotone(packets: Seq<OtPacket>, origin: int) -> bool {
    forall|i: int, j: int|
        0 <= i <= j < packets.len() ==> spec_normalize_ts(
            #[trigger] packets[i].committed_at as int,
            origin,
        ) <= spec_normalize_ts(#[trigger] packets[j].committed_at as int, origin)
}

/// A snapshot holds the replay of exactly the packets whose bucket does
/// not exceed the snapshot's: some prefix replays to its contents, every
/// packet of that prefix falls in a bucket at or before the snapshot's,
/// and every later packet falls in a strictly later bucket.
pub open spec fn spec_snapshot_is_bucket_prefix(
    packets: Seq<OtPacket>,
    origin: int,
    snap: (int, Seq<char>),
) -> bool {
    exists|m: int|
        1 <= m <= packets.len() && spec_replay(Seq::empty(), #[trigger] packets.take(m)) == Ok::<
            Seq<char>,
            OtError,
        >(snap.1) && (forall|i: int|
            0 <= i < m ==> spec_normalize_ts(packets[i].committed_at as int, origin) <= snap.0)
            && (forall|i: int|
            m <= i < packets.len() ==> spec_normalize_ts(packets[i].committed_at as int, origin)
                > snap.0)
}

/// The bucketing loop, run from a replayed prefix, only ever emits
/// snapshots that are bucket prefixes of the whole history.
#[verifier::rlimit(60)]
proof fn lemma_bucket_loop_prefixes(
    full: Seq<OtPacket>,
    done: int,
    text: Seq<char>,
    cur: int,
    origin: int,
    acc: Seq<(int, Seq<char>)>,
)
    requires
        buckets_monotone(full, origin),
        full.len() >= 1,
        0 <= done <= full.len(),
        spec_replay(Seq::empty(), full.take(done)) == Ok::<Seq<char>, OtError>(text),
        cur == if done == 0 {
            spec_normalize_ts(full[0].committed_at as int, origin)
        } else {
            spec_normalize_ts(full[done - 1].committed_at as int, origin)
        },
        forall|k: int|
            0 <= k < acc.len() ==> spec_snapshot_is_bucket_prefix(full, origin, #[trigger] acc[k]),
        spec_bucket_loop(text, cur, full.skip(done), origin, acc) is Ok,
    ensures
        forall|k: int|
            0 <= k < spec_bucket_loop(text, cur, full.skip(done), origin, acc)->Ok_0.len()
                ==> spec_snapshot_is_bucket_prefix(
                full,
                origin,
                #[trigger] spec_bucket_loop(text, cur, full.skip(done), origin, acc)->Ok_0[k],
            ),
    decreases full.len() - done,
{
    let rem = full.skip(done);
    if rem.len() == 0 {
        assert(done == full.len());
        let snap = (cur, text);
        assert(full.take(done) =~= full);
        let m = done;
        assert forall|i: int|
            0 <= i < m implies spec_normalize_ts(full[i].committed_at as int, origin)
            <= snap.0 by {
            assert(spec_normalize_ts(full[i].committed_at as int, origin) <= spec_normalize_ts(
                full[done - 1].committed_at as int,
                origin,
            ));
        }
        assert(spec_snapshot_is_bucket_prefix(full, origin, snap));
        let result = acc.push(snap);
        assert forall|k: int|
            0 <= k < result.len() implies spec_snapshot_is_bucket_prefix(
            full,
            origin,
            #[trigger] result[k],
        ) by {
            if k < acc.len() {
                assert(result[k] == acc[k]);
            } else {
                assert(result[k] == snap);
            }
        }
    } else {
        let p = rem[0];
        assert(p == full[done]);
        let b = spec_normalize_ts(p.committed_at as int, origin);
        let flush = b != cur;
        let snap = (cur, text);
        let acc2 = if flush {
            acc.push(snap)
        } else {
            acc
        };
        if flush {
            assert(done >= 1) by {
                if done == 0 {
                    assert(cur == spec_normalize_ts(full[0].committed_at as int, origin));
                    assert(b == cur);
                }
            }
            let m = done;
            assert forall|i: int|
                0 <= i < m implies spec_normalize_ts(full[i].committed_at as int, origin)
                <= snap.0 by {
                assert(spec_normalize_ts(full[i].committed_at as int, origin)
                    <= spec_normalize_ts(full[done - 1].committed_at as int, origin));
            }
            assert(b >= cur) by {
                if done >= 1 {
                    assert(spec_normalize_ts(full[done - 1].committed_at as int, origin)
                        <= spec_normalize_ts(full[done].committed_at as int, origin));
                }
            }
            assert forall|i: int|
                m <= i < full.len() implies spec_normalize_ts(full[i].committed_at as int, origin)
                > snap.0 by {
                assert(spec_normalize_ts(full[done].committed_at as int, origin)
                    <= spec_normalize_ts(full[i].committed_at as int, origin));
            }
            assert(spec_snapshot_is_bucket_prefix(full, origin, snap));
            assert forall|k: int|
                0 <= k < acc2.len() implies spec_snapshot_is_bucket_prefix(
                full,
                origin,
                #[trigger] acc2[k],
            ) by {
                if k < acc.len() {
                    assert(acc2[k] == acc[k]);
                } else {
                    assert(acc2[k] == snap);
                }
            }
        }
        let cur2 = if flush {
            b
        } else {
            cur
        };
        match spec_apply_packet(text, p) {
            Ok(t) => {
                lemma_replay_snoc(Seq::empty(), full.take(done), p);
                assert(full.take(done).push(p) =~= full.take(done + 1));
                assert(spec_replay(Seq::empty(), full.take(done + 1)) == Ok::<
                    Seq<char>,
                    OtError,
                >(t));
                assert(rem.skip(1) =~= full.skip(done + 1));
                assert(cur2 == spec_normalize_ts(full[done].committed_at as int, origin));
                lemma_bucket_loop_prefixes(full, done + 1, t, cur2, origin, acc2);
            },
            Err(e) => {
                assert(false);
            },
        }
    }
}

/// Every snapshot of a history whose buckets never go backwards holds
/// the replay of exactly the packets whose bucket is at or before the
/// snapshot's own.
pub proof fn lemma_snapshots_are_bucket_prefixes(packets: Seq<OtPacket>, origin: int)
    requires
        buckets_monotone(packets, origin),
        spec_snapshots(packets, origin) is Ok,
    ensures
        forall|k: int|
            0 <= k < spec_snapshots(packets, origin)->Ok_0.len()
                ==> spec_snapshot_is_bucket_prefix(
                packets,
                origin,
                #[trigger] spec_snapshots(packets, origin)->Ok_0[k],
            ),
{
    if packets.len() == 0 {
    } else {
        let cur0 = spec_normalize_ts(packets[0].committed_at as int, origin);
        assert(packets.take(0int) =~= Seq::<OtPacket>::empty());
        assert(packets.skip(0int) =~= packets);
        lemma_bucket_loop_prefixes(packets, 0, Seq::empty(), cur0, origin, Seq::empty());
    }
}

} // verus!
