//! The chunk layout of a multipart archive upload: fixed-size parts with
//! one short final part, covering the file exactly.

use vstd::arithmetic::div_mod::{lemma_fundamental_div_mod, lemma_mod_bound};
use vstd::prelude::*;

verus! {

/// The size of every part but the last, in bytes.
pub const CHUNK_SIZE: u64 = 100 * 1024 * 1024;

/// How many part uploads may run at once.
pub const CONCURRENT_UPLOADS: usize = 8;

/// How many parts a file of this size needs.
pub open spec fn spec_chunk_count(file_size: int) -> int {
    if file_size <= 0 {
        0
    } else {
        (file_size - 1) / (CHUNK_SIZE as int) + 1
    }
}

/// The size of the part at this index: the fixed chunk size for all but
/// the last, which takes whatever remains.
pub open spec fn spec_chunk_size_at(file_size: int, index: int) -> int {
    if index + 1 < spec_chunk_count(file_size) {
        CHUNK_SIZE as int
    } else {
        file_size - (spec_chunk_count(file_size) - 1) * (CHUNK_SIZE as int)
    }
}

/// How many parts the upload of a file of `file_size` bytes has. An
/// empty file has none.
pub fn chunk_count(file_size: u64) -> (n: u64)
    ensures
        n == spec_chunk_count(file_size as int),
{
    if file_size == 0 {
        return 0;
    }
    let n = (file_size - 1) / CHUNK_SIZE + 1;
    n
}

/// The byte size of the part at `index`.
pub fn chunk_size_at(file_size: u64, index: u64) -> (r: u64)
    requires
        index < spec_chunk_count(file_size as int),
    ensures
        r == spec_chunk_size_at(file_size as int, index as int),
        1 <= r <= CHUNK_SIZE,
{
    proof {
        lemma_chunk_layout(file_size as int);
    }
    let n = chunk_count(file_size);
    if index + 1 < n {
        CHUNK_SIZE
    } else {
        file_size - (n - 1) * CHUNK_SIZE
    }
}

/// The parts tile the file exactly: every part but the last is the fixed
/// chunk size, the last is between one byte and a full chunk, and all of
/// them together cover the file.
pub proof fn lemma_chunk_layout(file_size: int)
    requires
        file_size > 0,
    ensures
        spec_chunk_count(file_size) >= 1,
        (spec_chunk_count(file_size) - 1) * (CHUNK_SIZE as int) < file_size,
        1 <= spec_chunk_size_at(file_size, spec_chunk_count(file_size) - 1) <= CHUNK_SIZE as int,
        (spec_chunk_count(file_size) - 1) * (CHUNK_SIZE as int) + spec_chunk_size_at(
            file_size,
            spec_chunk_count(file_size) - 1,
        ) == file_size,
{
    let c = CHUNK_SIZE as int;
    let q = (file_size - 1) / c;
    lemma_fundamental_div_mod(file_size - 1, c);
    lemma_mod_bound(file_size - 1, c);
    assert(file_size - 1 == c * q + (file_size - 1) % c);
    assert(spec_chunk_count(file_size) == q + 1);
    assert(q * c == c * q) by (nonlinear_arith);
}

} // verus!
