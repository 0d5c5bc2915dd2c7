//! Bucketing of raw edit timestamps onto an hourly grid aligned with the
//! creation time of the workspace, so that edits made moments apart fall
//! into the same history snapshot.

use vstd::arithmetic::div_mod::{
    lemma_fundamental_div_mod, lemma_mod_adds, lemma_mod_bound, lemma_small_mod,
};
use vstd::prelude::*;

verus! {

/// Width of one snapshot bucket, in seconds.
pub const BUCKET_WIDTH: i64 = 3600;

/// Half a bucket width, used to round to the nearest grid point.
pub const BUCKET_WIDTH_HALF: i64 = 1800;

/// The bucket that a raw timestamp `ts` falls into, on a grid of
/// `BUCKET_WIDTH`-second cells whose phase is `origin % BUCKET_WIDTH`.
/// Timestamps before the origin are clamped to the origin itself.
pub open spec fn spec_normalize_ts(ts: int, origin: int) -> int {
    if ts < origin {
        origin
    } else {
        let off = origin % (BUCKET_WIDTH as int);
        (BUCKET_WIDTH as int) * ((ts + BUCKET_WIDTH_HALF - off) / (BUCKET_WIDTH as int)) + off
    }
}

/// Rounds `ts` to the nearest bucket boundary aligned with `start_ts`'s
/// hour; anything earlier than `start_ts` is reported as `start_ts`.
pub fn normalize_ts(ts: i64, start_ts: i64) -> (r: i64)
    requires
        start_ts >= 0,
        ts <= i64::MAX - BUCKET_WIDTH_HALF,
    ensures
        r == spec_normalize_ts(ts as int, start_ts as int),
{
    if ts < start_ts {
        return start_ts;
    }
    let w: u64 = BUCKET_WIDTH as u64;
    let half: u64 = BUCKET_WIDTH_HALF as u64;
    let off: u64 = (start_ts as u64) % w;
    proof {
        lemma_mod_bound(start_ts as int, BUCKET_WIDTH as int);
        assert(start_ts as u64 % w == (start_ts as int) % (BUCKET_WIDTH as int)) by {
            lemma_small_mod((start_ts as u64 % w) as nat, w as nat);
        }
    }
    let q: u64 = ((ts as u64) + half - off) / w;
    let r: i64 = (w * q + off) as i64;
    proof {
        let n = ts + (BUCKET_WIDTH_HALF as int) - off;
        lemma_fundamental_div_mod(n, BUCKET_WIDTH as int);
        lemma_mod_bound(n, BUCKET_WIDTH as int);
    }
    r
}

/// The bucket of a timestamp keeps the origin's phase on the hourly grid,
/// and lies within half a bucket width of the raw timestamp.
pub proof fn lemma_normalize_ts_aligned(ts: int, origin: int)
    requires
        0 <= origin <= ts,
    ensures
        spec_normalize_ts(ts, origin) % (BUCKET_WIDTH as int) == origin % (BUCKET_WIDTH as int),
        spec_normalize_ts(ts, origin) - ts <= BUCKET_WIDTH_HALF,
        ts - spec_normalize_ts(ts, origin) < BUCKET_WIDTH_HALF,
{
    let w = BUCKET_WIDTH as int;
    let off = origin % w;
    lemma_mod_bound(origin, w);
    let n = ts + BUCKET_WIDTH_HALF - off;
    lemma_fundamental_div_mod(n, w);
    lemma_mod_bound(n, w);
    let q = n / w;
    let r = n % w;
    assert(spec_normalize_ts(ts, origin) == w * q + off);
    assert(spec_normalize_ts(ts, origin) - ts == BUCKET_WIDTH_HALF - r);
    assert((w * q + off) % w == off) by {
        lemma_mod_adds(w * q, off, w);
        vstd::arithmetic::div_mod::lemma_mod_multiples_basic(q, w);
        lemma_small_mod(off as nat, w as nat);
    }
}

/// Buckets never move backwards: a later raw timestamp lands in the same
/// bucket or a later one.
pub proof fn lemma_normalize_ts_monotonic(ts1: int, ts2: int, origin: int)
    requires
        0 <= origin,
        ts1 <= ts2,
    ensures
        spec_normalize_ts(ts1, origin) <= spec_normalize_ts(ts2, origin),
{
    let w = BUCKET_WIDTH as int;
    let off = origin % w;
    lemma_mod_bound(origin, w);
    if origin <= ts1 {
        let n1 = ts1 + BUCKET_WIDTH_HALF - off;
        let n2 = ts2 + BUCKET_WIDTH_HALF - off;
        vstd::arithmetic::div_mod::lemma_div_is_ordered(n1, n2, w);
        vstd::arithmetic::mul::lemma_mul_inequality(n1 / w, n2 / w, w);
    } else if origin <= ts2 {
        lemma_normalize_ts_aligned(ts2, origin);
    }
}

} // verus!
