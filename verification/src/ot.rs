//! The operational-transform engine: replays a packet of skip / delete /
//! insert operations onto a rope-backed text buffer and checks the packet's
//! CRC-32 against the buffer contents.

use vstd::prelude::*;

verus! {

/// One operational-transform component. `Skip` and `Delete` magnitudes are
/// character counts, not byte counts.
#[derive(Debug, Clone, PartialEq, Eq)]
pub enum OtOp {
    Insert(String),
    Skip(u32),
    Delete(u32),
}

/// One edit packet of a file's history. Packets of a file are numbered
/// consecutively from 1 in `version`; `committed_at` is unix seconds and may
/// be 0 when the platform recorded no time.
#[derive(Debug, Clone, PartialEq, Eq)]
pub struct OtPacket {
    pub ops: Vec<OtOp>,
    pub crc32: u32,
    pub committed_at: i64,
    pub version: u32,
}

/// Why applying a packet failed.
#[derive(Debug, Clone, Copy, PartialEq, Eq, Structural)]
pub enum OtError {
    /// A skip or delete reached past the end of the buffer.
    InvalidOp,
    /// The buffer's checksum after the packet differed from the packet's.
    CrcMismatch,
}

/// The text after applying `ops` to `text` with the cursor at `cursor`,
/// or `None` if a skip or delete reaches past the end.
pub open spec fn spec_apply_ops(text: Seq<char>, cursor: nat, ops: Seq<OtOp>) -> Option<Seq<char>>
    decreases ops.len(),
{
    if ops.len() == 0 {
        Some(text)
    } else {
        match ops[0] {
            OtOp::Skip(n) => if cursor + n <= text.len() {
                spec_apply_ops(text, (cursor + n) as nat, ops.skip(1))
            } else {
                None
            },
            OtOp::Delete(n) => if cursor + n <= text.len() {
                spec_apply_ops(
                    text.subrange(0, cursor as int) + text.subrange(
                        cursor + n,
                        text.len() as int,
                    ),
                    cursor,
                    ops.skip(1),
                )
            } else {
                None
            },
            OtOp::Insert(s) => spec_apply_ops(
                text.subrange(0, cursor as int) + s@ + text.subrange(
                    cursor as int,
                    text.len() as int,
                ),
                (cursor + s@.len()) as nat,
                ops.skip(1),
            ),
        }
    }
}

/// The text after applying a whole packet from cursor 0.
pub open spec fn spec_apply_packet_text(text: Seq<char>, packet: OtPacket) -> Option<Seq<char>> {
    spec_apply_ops(text, 0, packet.ops@)
}

/// What applying a packet to a buffer holding `text` must return.
pub open spec fn spec_apply_packet(text: Seq<char>, packet: OtPacket) -> Result<Seq<char>, OtError> {
    match spec_apply_packet_text(text, packet) {
        None => Err(OtError::InvalidOp),
        Some(t) => if crc32_of(t) == packet.crc32 {
            Ok(t)
        } else {
            Err(OtError::CrcMismatch)
        },
    }
}

/// The CRC-32 of the UTF-8 encoding of a character sequence, as the
/// checksum library computes it.
pub uninterp spec fn crc32_of(text: Seq<char>) -> u32;

#[verifier::external_type_specification]
#[verifier::external_body]
pub struct ExRope(ropey::Rope);

/// The characters a rope holds.
pub uninterp spec fn rope_text(r: ropey::Rope) -> Seq<char>;

/// Relies on ropey::Rope::new: a rope with no contents.
#[verifier::external_body]
pub(crate) fn rope_new() -> (r: ropey::Rope)
    ensures
        rope_text(r) == Seq::<char>::empty(),
{
    ropey::Rope::new()
}

/// Relies on ropey::Rope::len_chars: the number of characters in the rope.
#[verifier::external_body]
pub(crate) fn rope_len_chars(r: &ropey::Rope) -> (n: usize)
    ensures
        n == rope_text(*r).len(),
{
    r.len_chars()
}

/// Relies on ropey::Rope::insert: splices `text` in at character index
/// `char_idx`, which must not be past the end.
#[verifier::external_body]
pub(crate) fn rope_insert(r: &mut ropey::Rope, char_idx: usize, text: &str)
    requires
        char_idx <= rope_text(*old(r)).len(),
    ensures
        rope_text(*final(r)) == rope_text(*old(r)).subrange(0, char_idx as int) + text@
            + rope_text(*old(r)).subrange(char_idx as int, rope_text(*old(r)).len() as int),
{
    r.insert(char_idx, text)
}

/// Relies on ropey::Rope::remove: removes the characters in
/// `start..end`, which must lie within the rope.
#[verifier::external_body]
pub(crate) fn rope_remove(r: &mut ropey::Rope, start: usize, end: usize)
    requires
        start <= end <= rope_text(*old(r)).len(),
    ensures
        rope_text(*final(r)) == rope_text(*old(r)).subrange(0, start as int) + rope_text(
            *old(r),
        ).subrange(end as int, rope_text(*old(r)).len() as int),
{
    r.remove(start..end)
}

/// Relies on String::from(&ropey::Rope): the rope's contents gathered into
/// one string.
#[verifier::external_body]
pub(crate) fn rope_string(r: &ropey::Rope) -> (s: String)
    ensures
        s@ == rope_text(*r),
{
    String::from(r)
}

/// Relies on crc32fast::Hasher (new, update, finalize) fed with
/// ropey::Rope::chunks: the CRC-32 of the rope's UTF-8 bytes, streamed
/// chunk by chunk without gathering a full copy.
#[verifier::external_body]
pub(crate) fn rope_crc32(r: &ropey::Rope) -> (c: u32)
    ensures
        c == crc32_of(rope_text(*r)),
{
    let mut hasher = crc32fast::Hasher::new();
    for chunk in r.chunks() {
        hasher.update(chunk.as_bytes());
    }
    hasher.finalize()
}

/// A text buffer for replaying one file's history, backed by a rope so
/// that edits in the middle of large files stay cheap.
pub struct TextBuffer {
    rope: ropey::Rope,
}

impl View for TextBuffer {
    type V = Seq<char>;

    closed spec fn view(&self) -> Seq<char> {
        rope_text(self.rope)
    }
}

impl TextBuffer {
    /// An empty buffer.
    pub fn new() -> (r: TextBuffer)
        ensures
            r@ == Seq::<char>::empty(),
    {
        TextBuffer { rope: rope_new() }
    }

    /// The number of characters held.
    pub fn len_chars(&self) -> (n: usize)
        ensures
            n == self@.len(),
    {
        rope_len_chars(&self.rope)
    }

    /// The buffer's contents as one string.
    pub fn contents(&self) -> (s: String)
        ensures
            s@ == self@,
    {
        rope_string(&self.rope)
    }

    /// The CRC-32 checksum of the buffer's UTF-8 bytes.
    pub fn crc32(&self) -> (c: u32)
        ensures
            c == crc32_of(self@),
    {
        rope_crc32(&self.rope)
    }

    /// Replays one packet onto the buffer, then checks the packet's CRC-32
    /// against the new contents.
    ///
    /// On `Ok` the buffer holds exactly the replayed text and its checksum
    /// equals the packet's. On `Err(CrcMismatch)` the ops all applied (the
    /// buffer holds the replayed text) but the checksum differed. On
    /// `Err(InvalidOp)` an op reached past the end of the buffer and the
    /// buffer is left partially edited; callers abandon it.
    pub fn apply_packet(&mut self, packet: &OtPacket) -> (r: Result<(), OtError>)
        ensures
            match r {
                Ok(()) => spec_apply_packet(old(self)@, *packet) == Ok::<Seq<char>, OtError>(
                    final(self)@,
                ) && crc32_of(final(self)@) == packet.crc32,
                Err(e) => spec_apply_packet(old(self)@, *packet) == Err::<Seq<char>, OtError>(e)
                    && (e == OtError::CrcMismatch ==> Some(final(self)@)
                    == spec_apply_packet_text(old(self)@, *packet)),
            },
    {
        let mut cursor: usize = 0;
        let mut i: usize = 0;
        let n_ops: usize = packet.ops.len();
        proof {
            assert(packet.ops@.skip(0) =~= packet.ops@);
        }
        while i < n_ops
            invariant
                i <= n_ops,
                n_ops == packet.ops@.len(),
                cursor <= self@.len(),
                spec_apply_ops(old(self)@, 0, packet.ops@) == spec_apply_ops(
                    self@,
                    cursor as nat,
                    packet.ops@.skip(i as int),
                ),
            decreases n_ops - i,
        {
            let ghost ops_left = packet.ops@.skip(i as int);
            proof {
                assert(ops_left[0] == packet.ops@[i as int]);
                assert(ops_left.skip(1) =~= packet.ops@.skip(i as int + 1));
            }
            let len = self.len_chars();
            match &packet.ops[i] {
                OtOp::Skip(amount) => {
                    let amt = *amount as usize;
                    if amt > len - cursor {
                        proof {
                            assert(spec_apply_ops(self@, cursor as nat, ops_left) is None);
                        }
                        return Err(OtError::InvalidOp);
                    }
                    cursor = cursor + amt;
                },
                OtOp::Delete(amount) => {
                    let amt = *amount as usize;
                    if amt > len - cursor {
                        proof {
                            assert(spec_apply_ops(self@, cursor as nat, ops_left) is None);
                        }
                        return Err(OtError::InvalidOp);
                    }
                    let ghost before = self@;
                    rope_remove(&mut self.rope, cursor, cursor + amt);
                    proof {
                        assert(spec_apply_ops(before, cursor as nat, ops_left) == spec_apply_ops(
                            self@,
                            cursor as nat,
                            ops_left.skip(1),
                        ));
                    }
                },
                OtOp::Insert(s) => {
                    let ins_len = s.as_str().unicode_len();
                    let ghost before = self@;
                    rope_insert(&mut self.rope, cursor, s.as_str());
                    let new_len = self.len_chars();
                    proof {
                        assert(self@.len() == before.len() + s@.len());
                        assert(cursor + ins_len <= new_len);
                        assert(spec_apply_ops(before, cursor as nat, ops_left) == spec_apply_ops(
                            self@,
                            (cursor + ins_len) as nat,
                            ops_left.skip(1),
                        ));
                    }
                    cursor = cursor + ins_len;
                },
            }
            i = i + 1;
        }
        proof {
            assert(packet.ops@.skip(n_ops as int) =~= Seq::<OtOp>::empty());
        }
        let actual = self.crc32();
        if actual == packet.crc32 {
            Ok(())
        } else {
            Err(OtError::CrcMismatch)
        }
    }
}

} // verus!
