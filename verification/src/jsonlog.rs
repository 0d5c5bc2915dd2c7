//! The archived form of one file's edit log: a JSON array of packets
//! with normalised timestamp strings, written canonically, parsed back
//! strictly, and proved to round-trip.

use crate::download::{lemma_join_ids_push, spec_join_ids};
use crate::jsonstr::{push_escaped, spec_escape, spec_parse_jstring_body};
use crate::jsontext::{
    push_i64, push_u64, spec_dec_digits, spec_i64_digits, spec_is_digit, spec_parse_digits,
};
use crate::ot::OtOp;
use vstd::prelude::*;

verus! {

/// One packet as it is archived: its ops, checksum and version, the raw
/// commit timestamp, and that timestamp bucketed and rendered as text.
#[derive(Debug, Clone, PartialEq, Eq)]
pub struct OtLogEntry {
    pub ops: Vec<OtOp>,
    pub crc32: u32,
    pub timestamp: i64,
    pub ts_string: String,
    pub version: u32,
}

/// The mathematical shape of one op: a tag (0 insert, 1 skip, 2 delete),
/// the magnitude for skips and deletes, and the text for inserts.
pub type OpView = (int, nat, Seq<char>);

/// The mathematical shape of one entry: op shapes, checksum, raw
/// timestamp, rendered timestamp text, and version.
pub type EntryView = (Seq<OpView>, nat, int, Seq<char>, nat);

/// The shape of an op value.
pub open spec fn spec_op_view(op: OtOp) -> OpView {
    match op {
        OtOp::Insert(s) => (0int, 0nat, s@),
        OtOp::Skip(n) => (1int, n as nat, Seq::empty()),
        OtOp::Delete(n) => (2int, n as nat, Seq::empty()),
    }
}

/// The shape of an entry value.
pub open spec fn spec_entry_view(e: OtLogEntry) -> EntryView {
    (
        e.ops@.map_values(|op: OtOp| spec_op_view(op)),
        e.crc32 as nat,
        e.timestamp as int,
        e.ts_string@,
        e.version as nat,
    )
}

/// One op in its serialized form.
pub open spec fn spec_ser_op(op: OtOp) -> Seq<char> {
    match op {
        OtOp::Insert(s) => "{\"insert\":\""@ + spec_escape(s@) + "\"}"@,
        OtOp::Skip(n) => "{\"skip\":"@ + spec_dec_digits(n as nat) + "}"@,
        OtOp::Delete(n) => "{\"delete\":"@ + spec_dec_digits(n as nat) + "}"@,
    }
}

/// One entry in its serialized form.
pub open spec fn spec_ser_entry(e: OtLogEntry) -> Seq<char> {
    "{\"ops\":["@ + spec_join_ids(e.ops@.map_values(|op: OtOp| spec_ser_op(op))) + "]"@
        + ",\"crc32\":"@ + spec_dec_digits(e.crc32 as nat) + ",\"timestamp\":"@ + spec_i64_digits(
        e.timestamp as int,
    ) + ",\"tsString\":\""@ + spec_escape(e.ts_string@) + "\""@ + ",\"version\":"@
        + spec_dec_digits(e.version as nat) + "}"@
}

/// A whole log in its serialized form: the entries joined with commas
/// inside one array.
pub open spec fn spec_ser_log(entries: Seq<OtLogEntry>) -> Seq<char> {
    "["@ + spec_join_ids(entries.map_values(|e: OtLogEntry| spec_ser_entry(e))) + "]"@
}

/// Appends one op's serialized form.
fn push_op(out: &mut String, op: &OtOp)
    ensures
        final(out)@ == old(out)@ + spec_ser_op(*op),
{
    match op {
        OtOp::Insert(s) => {
            out.append("{\"insert\":\"");
            push_escaped(out, s.as_str());
            out.append("\"}");
        },
        OtOp::Skip(n) => {
            out.append("{\"skip\":");
            push_u64(out, *n as u64);
            out.append("}");
        },
        OtOp::Delete(n) => {
            out.append("{\"delete\":");
            push_u64(out, *n as u64);
            out.append("}");
        },
    }
    proof {
        assert(final(out)@ =~= old(out)@ + spec_ser_op(*op));
    }
}

/// Appends one entry's serialized form.
fn push_entry(out: &mut String, e: &OtLogEntry)
    ensures
        final(out)@ == old(out)@ + spec_ser_entry(*e),
{
    let ghost sops = e.ops@.map_values(|op: OtOp| spec_ser_op(op));
    out.append("{\"ops\":[");
    let n = e.ops.len();
    let mut i: usize = 0;
    let ghost mid0 = out@;
    proof {
        assert(sops.take(0int) =~= Seq::<Seq<char>>::empty());
        assert(out@ =~= mid0 + spec_join_ids(sops.take(0int)));
    }
    while i < n
        invariant
            i <= n,
            n == e.ops@.len(),
            mid0 == old(out)@ + "{\"ops\":["@,
            sops == e.ops@.map_values(|op: OtOp| spec_ser_op(op)),
            i == 0 || i == n ==> out@ == mid0 + spec_join_ids(sops.take(i as int)),
            0 < i < n ==> out@ == mid0 + spec_join_ids(sops.take(i as int)) + seq![','],
        decreases n - i,
    {
        push_op(out, &e.ops[i]);
        if i + 1 < n {
            out.append(",");
        }
        proof {
            reveal_strlit(",");
            assert(","@ =~= seq![',']);
            assert(sops.take(i as int + 1) =~= sops.take(i as int).push(sops[i as int]));
            lemma_join_ids_push(sops.take(i as int), sops[i as int]);
            if i == 0 {
                assert(sops.take(0int) =~= Seq::<Seq<char>>::empty());
                assert(mid0 + Seq::<char>::empty() =~= mid0);
                if 1 < n {
                    assert(out@ =~= mid0 + spec_join_ids(sops.take(1int)) + seq![',']);
                } else {
                    assert(out@ =~= mid0 + spec_join_ids(sops.take(1int)));
                }
            } else {
                if i + 1 < n {
                    assert(out@ =~= mid0 + spec_join_ids(sops.take(i as int + 1)) + seq![',']);
                } else {
                    assert(out@ =~= mid0 + spec_join_ids(sops.take(i as int + 1)));
                }
            }
        }
        i = i + 1;
    }
    proof {
        assert(sops.take(n as int) =~= sops);
        if n == 0 {
            assert(out@ =~= mid0 + spec_join_ids(sops));
        }
    }
    out.append("],\"crc32\":");
    push_u64(out, e.crc32 as u64);
    out.append(",\"timestamp\":");
    push_i64(out, e.timestamp);
    out.append(",\"tsString\":\"");
    push_escaped(out, e.ts_string.as_str());
    out.append("\",\"version\":");
    push_u64(out, e.version as u64);
    out.append("}");
    proof {
        reveal_strlit("],\"crc32\":");
        reveal_strlit("]");
        reveal_strlit(",\"crc32\":");
        reveal_strlit("\",\"version\":");
        reveal_strlit("\"");
        reveal_strlit(",\"version\":");
        assert("],\"crc32\":"@ =~= "]"@ + ",\"crc32\":"@);
        assert("\",\"version\":"@ =~= "\""@ + ",\"version\":"@);
        assert(final(out)@ =~= old(out)@ + spec_ser_entry(*e));
    }
}

/// Serialises a whole log to its canonical JSON text.
pub fn serialize_log(entries: &Vec<OtLogEntry>) -> (r: String)
    ensures
        r@ == spec_ser_log(entries@),
{
    let ghost sentries = entries@.map_values(|e: OtLogEntry| spec_ser_entry(e));
    let mut out = String::new();
    out.append("[");
    let n = entries.len();
    let mut i: usize = 0;
    let ghost mid0 = out@;
    proof {
        assert(sentries.take(0int) =~= Seq::<Seq<char>>::empty());
        assert(out@ =~= mid0 + spec_join_ids(sentries.take(0int)));
    }
    while i < n
        invariant
            i <= n,
            n == entries@.len(),
            mid0 == "["@,
            sentries == entries@.map_values(|e: OtLogEntry| spec_ser_entry(e)),
            i == 0 || i == n ==> out@ == mid0 + spec_join_ids(sentries.take(i as int)),
            0 < i < n ==> out@ == mid0 + spec_join_ids(sentries.take(i as int)) + seq![','],
        decreases n - i,
    {
        push_entry(&mut out, &entries[i]);
        if i + 1 < n {
            out.append(",");
        }
        proof {
            reveal_strlit(",");
            assert(","@ =~= seq![',']);
            assert(sentries.take(i as int + 1) =~= sentries.take(i as int).push(
                sentries[i as int],
            ));
            lemma_join_ids_push(sentries.take(i as int), sentries[i as int]);
            if i == 0 {
                assert(sentries.take(0int) =~= Seq::<Seq<char>>::empty());
                assert(mid0 + Seq::<char>::empty() =~= mid0);
                if 1 < n {
                    assert(out@ =~= mid0 + spec_join_ids(sentries.take(1int)) + seq![',']);
                } else {
                    assert(out@ =~= mid0 + spec_join_ids(sentries.take(1int)));
                }
            } else {
                if i + 1 < n {
                    assert(out@ =~= mid0 + spec_join_ids(sentries.take(i as int + 1)) + seq![
                        ',',
                    ]);
                } else {
                    assert(out@ =~= mid0 + spec_join_ids(sentries.take(i as int + 1)));
                }
            }
        }
        i = i + 1;
    }
    out.append("]");
    proof {
        assert(sentries.take(n as int) =~= sentries);
        if n == 0 {
            assert(out@ =~= mid0 + spec_join_ids(sentries) + "]"@);
        }
        assert(out@ =~= spec_ser_log(entries@));
    }
    out
}


/// What remains after an exact token, when the input starts with it.
pub open spec fn spec_expect(input: Seq<char>, tok: Seq<char>) -> Option<Seq<char>> {
    if input.len() >= tok.len() && input.take(tok.len() as int) == tok {
        Some(input.skip(tok.len() as int))
    } else {
        None
    }
}

/// An exact token at the front leaves exactly the rest.
pub proof fn lemma_expect_prefix(tok: Seq<char>, rest: Seq<char>)
    ensures
        spec_expect(tok + rest, tok) == Some(rest),
{
    assert((tok + rest).take(tok.len() as int) =~= tok);
    assert((tok + rest).skip(tok.len() as int) =~= rest);
}

/// A number of at least one digit, greedily, refused above the bound.
pub open spec fn spec_parse_number(input: Seq<char>, bound: nat) -> Option<(nat, Seq<char>)> {
    if input.len() > 0 && spec_is_digit(input[0]) {
        let r = spec_parse_digits(input, 0);
        if r.0 <= bound {
            Some(r)
        } else {
            None
        }
    } else {
        None
    }
}

/// A possibly negated number, within the signed 64-bit range.
pub open spec fn spec_parse_signed(input: Seq<char>) -> Option<(int, Seq<char>)> {
    if input.len() > 0 && input[0] == '-' {
        match spec_parse_number(input.skip(1), 0x8000000000000000nat) {
            Some((n, rest)) => Some((-(n as int), rest)),
            None => None,
        }
    } else {
        match spec_parse_number(input, i64::MAX as nat) {
            Some((n, rest)) => Some((n as int, rest)),
            None => None,
        }
    }
}

/// One serialized op, in any of its three forms.
pub open spec fn spec_parse_op(input: Seq<char>) -> Option<(OpView, Seq<char>)> {
    match spec_expect(input, "{\"insert\":\""@) {
        Some(r1) => match spec_parse_jstring_body(r1) {
            Some((txt, r2)) => match spec_expect(r2, "}"@) {
                Some(r3) => Some(((0int, 0nat, txt), r3)),
                None => None,
            },
            None => None,
        },
        None => match spec_expect(input, "{\"skip\":"@) {
            Some(r1) => match spec_parse_number(r1, u32::MAX as nat) {
                Some((n, r2)) => match spec_expect(r2, "}"@) {
                    Some(r3) => Some(((1int, n, Seq::empty()), r3)),
                    None => None,
                },
                None => None,
            },
            None => match spec_expect(input, "{\"delete\":"@) {
                Some(r1) => match spec_parse_number(r1, u32::MAX as nat) {
                    Some((n, r2)) => match spec_expect(r2, "}"@) {
                        Some(r3) => Some(((2int, n, Seq::empty()), r3)),
                        None => None,
                    },
                    None => None,
                },
                None => None,
            },
        },
    }
}

/// A serialized op list after its opening bracket, up to and including
/// the closing bracket.
pub open spec fn spec_parse_ops(input: Seq<char>) -> Option<(Seq<OpView>, Seq<char>)>
    decreases input.len(),
{
    if input.len() == 0 {
        None
    } else if input[0] == ']' {
        Some((Seq::empty(), input.skip(1)))
    } else {
        match spec_parse_op(input) {
            Some((v, rest)) => if rest.len() < input.len() {
                if rest.len() >= 1 && rest[0] == ',' {
                    match spec_parse_ops(rest.skip(1)) {
                        Some((vs, r2)) => if vs.len() >= 1 {
                            Some((seq![v] + vs, r2))
                        } else {
                            None
                        },
                        None => None,
                    }
                } else if rest.len() >= 1 && rest[0] == ']' {
                    Some((seq![v], rest.skip(1)))
                } else {
                    None
                }
            } else {
                None
            },
            None => None,
        }
    }
}

/// One serialized entry.
pub open spec fn spec_parse_entry(input: Seq<char>) -> Option<(EntryView, Seq<char>)> {
    match spec_expect(input, "{\"ops\":["@) {
        Some(r1) => match spec_parse_ops(r1) {
            Some((ops, r2)) => match spec_expect(r2, ",\"crc32\":"@) {
                Some(r3) => match spec_parse_number(r3, u32::MAX as nat) {
                    Some((crc, r4)) => match spec_expect(r4, ",\"timestamp\":"@) {
                        Some(r5) => match spec_parse_signed(r5) {
                            Some((ts, r6)) => match spec_expect(r6, ",\"tsString\":\""@) {
                                Some(r7) => match spec_parse_jstring_body(r7) {
                                    Some((tss, r8)) => match spec_expect(r8, ",\"version\":"@) {
                                        Some(r9) => match spec_parse_number(r9, u32::MAX as nat) {
                                            Some((ver, r10)) => match spec_expect(r10, "}"@) {
                                                Some(r11) => Some(
                                                    ((ops, crc, ts, tss, ver), r11),
                                                ),
                                                None => None,
                                            },
                                            None => None,
                                        },
                                        None => None,
                                    },
                                    None => None,
                                },
                                None => None,
                            },
                            None => None,
                        },
                        None => None,
                    },
                    None => None,
                },
                None => None,
            },
            None => None,
        },
        None => None,
    }
}

/// A serialized entry list after the opening bracket, up to and
/// including the closing bracket.
pub open spec fn spec_parse_entries(input: Seq<char>) -> Option<(Seq<EntryView>, Seq<char>)>
    decreases input.len(),
{
    if input.len() == 0 {
        None
    } else if input[0] == ']' {
        Some((Seq::empty(), input.skip(1)))
    } else {
        match spec_parse_entry(input) {
            Some((v, rest)) => if rest.len() < input.len() {
                if rest.len() >= 1 && rest[0] == ',' {
                    match spec_parse_entries(rest.skip(1)) {
                        Some((vs, r2)) => if vs.len() >= 1 {
                            Some((seq![v] + vs, r2))
                        } else {
                            None
                        },
                        None => None,
                    }
                } else if rest.len() >= 1 && rest[0] == ']' {
                    Some((seq![v], rest.skip(1)))
                } else {
                    None
                }
            } else {
                None
            },
            None => None,
        }
    }
}

/// A whole serialized log, which must fill the input exactly.
pub open spec fn spec_parse_log(input: Seq<char>) -> Option<Seq<EntryView>> {
    match spec_expect(input, "["@) {
        Some(r1) => match spec_parse_entries(r1) {
            Some((es, rest)) => if rest.len() == 0 {
                Some(es)
            } else {
                None
            },
            None => None,
        },
        None => None,
    }
}

/// A serialized op starts with an opening brace.
proof fn lemma_ser_op_head(op: OtOp)
    ensures
        spec_ser_op(op).len() >= 1,
        spec_ser_op(op)[0] == '{',
{
    reveal_strlit("{\"insert\":\"");
    reveal_strlit("{\"skip\":");
    reveal_strlit("{\"delete\":");
    match op {
        OtOp::Insert(_) => {},
        OtOp::Skip(_) => {},
        OtOp::Delete(_) => {},
    }
}

/// Parsing one serialized op followed by anything recovers the op's
/// shape and leaves that remainder.
proof fn lemma_rt_op(op: OtOp, rest: Seq<char>)
    ensures
        spec_parse_op(spec_ser_op(op) + rest) == Some((spec_op_view(op), rest)),
{
    reveal_strlit("{\"insert\":\"");
    reveal_strlit("{\"skip\":");
    reveal_strlit("{\"delete\":");
    reveal_strlit("\"}");
    reveal_strlit("}");
    let input = spec_ser_op(op) + rest;
    match op {
        OtOp::Insert(s) => {
            let tok = "{\"insert\":\""@;
            let tail = spec_escape(s@) + seq!['\"'] + (seq!['}'] + rest);
            assert(input =~= tok + tail);
            lemma_expect_prefix(tok, tail);
            crate::jsonstr::lemma_parse_escape(s@, seq!['}'] + rest);
            assert(spec_escape(s@) + "\"}"@ + rest =~= tail);
            assert(seq!['}'] + rest =~= "}"@ + rest);
            lemma_expect_prefix("}"@, rest);
        },
        OtOp::Skip(n) => {
            let itok = "{\"insert\":\""@;
            assert(input[2] == 's');
            if input.len() >= itok.len() {
                assert(input.take(itok.len() as int)[2] == 's');
                assert(itok[2] == 'i');
            }
            assert(spec_expect(input, itok) is None);
            let tok = "{\"skip\":"@;
            let tail = spec_dec_digits(n as nat) + (seq!['}'] + rest);
            assert(input =~= tok + tail);
            lemma_expect_prefix(tok, tail);
            crate::jsontext::lemma_parse_dec_digits(n as nat, seq!['}'] + rest);
            crate::jsontext::lemma_dec_digits_are_digits(n as nat);
            assert(spec_dec_digits(n as nat) + (seq!['}'] + rest) =~= spec_dec_digits(n as nat)
                + seq!['}'] + rest);
            assert(tail[0] == spec_dec_digits(n as nat)[0]);
            assert(spec_is_digit(tail[0]));
            assert(seq!['}'] + rest =~= "}"@ + rest);
            lemma_expect_prefix("}"@, rest);
        },
        OtOp::Delete(n) => {
            let itok = "{\"insert\":\""@;
            assert(input[2] == 'd');
            if input.len() >= itok.len() {
                assert(input.take(itok.len() as int)[2] == 'd');
                assert(itok[2] == 'i');
            }
            assert(spec_expect(input, itok) is None);
            let stok = "{\"skip\":"@;
            if input.len() >= stok.len() {
                assert(input.take(stok.len() as int)[2] == 'd');
                assert(stok[2] == 's');
            }
            assert(spec_expect(input, stok) is None);
            let tok = "{\"delete\":"@;
            let tail = spec_dec_digits(n as nat) + (seq!['}'] + rest);
            assert(input =~= tok + tail);
            lemma_expect_prefix(tok, tail);
            crate::jsontext::lemma_parse_dec_digits(n as nat, seq!['}'] + rest);
            crate::jsontext::lemma_dec_digits_are_digits(n as nat);
            assert(tail[0] == spec_dec_digits(n as nat)[0]);
            assert(spec_is_digit(tail[0]));
            assert(seq!['}'] + rest =~= "}"@ + rest);
            lemma_expect_prefix("}"@, rest);
        },
    }
}

/// Parsing a serialized op list, its closing bracket, and anything after
/// recovers the ops' shapes.
#[verifier::rlimit(80)]
proof fn lemma_rt_ops(ops: Seq<OtOp>, rest: Seq<char>)
    ensures
        spec_parse_ops(
            spec_join_ids(ops.map_values(|op: OtOp| spec_ser_op(op))) + seq![']'] + rest,
        ) == Some((ops.map_values(|op: OtOp| spec_op_view(op)), rest)),
    decreases ops.len(),
{
    let sops = ops.map_values(|op: OtOp| spec_ser_op(op));
    let vops = ops.map_values(|op: OtOp| spec_op_view(op));
    let input = spec_join_ids(sops) + seq![']'] + rest;
    if ops.len() == 0 {
        assert(input =~= seq![']'] + rest);
        assert(input[0] == ']');
        assert(input.skip(1) =~= rest);
        assert(vops =~= Seq::<OpView>::empty());
    } else if ops.len() == 1 {
        lemma_ser_op_head(ops[0]);
        assert(spec_join_ids(sops) == sops[0]);
        assert(input =~= spec_ser_op(ops[0]) + (seq![']'] + rest));
        assert(input[0] == '{');
        lemma_rt_op(ops[0], seq![']'] + rest);
        let after = seq![']'] + rest;
        assert(after[0] == ']');
        assert(after.len() < input.len());
        assert(after.skip(1) =~= rest);
        assert(seq![spec_op_view(ops[0])] =~= vops);
    } else {
        lemma_ser_op_head(ops[0]);
        assert(sops[0] == spec_ser_op(ops[0]));
        assert(spec_join_ids(sops) == sops[0] + seq![','] + spec_join_ids(sops.skip(1)));
        assert(sops.skip(1) =~= ops.skip(1).map_values(|op: OtOp| spec_ser_op(op)));
        let inner = spec_join_ids(sops.skip(1)) + seq![']'] + rest;
        let after = seq![','] + inner;
        assert(input =~= spec_ser_op(ops[0]) + after);
        assert(input[0] == '{');
        lemma_rt_op(ops[0], after);
        assert(after[0] == ',');
        assert(after.len() < input.len());
        assert(after.skip(1) =~= inner);
        lemma_rt_ops(ops.skip(1), rest);
        let vtail = ops.skip(1).map_values(|op: OtOp| spec_op_view(op));
        assert(vtail.len() == ops.len() - 1 >= 1);
        assert(seq![spec_op_view(ops[0])] + vtail =~= vops);
    }
}


/// A serialized entry starts with an opening brace.
proof fn lemma_ser_entry_head(e: OtLogEntry)
    ensures
        spec_ser_entry(e).len() >= 1,
        spec_ser_entry(e)[0] == '{',
{
    reveal_strlit("{\"ops\":[");
}

/// Parsing one serialized entry followed by anything recovers the
/// entry's shape and leaves that remainder.
#[verifier::rlimit(90)]
proof fn lemma_rt_entry(e: OtLogEntry, rest: Seq<char>)
    ensures
        spec_parse_entry(spec_ser_entry(e) + rest) == Some((spec_entry_view(e), rest)),
{
    reveal_strlit("{\"ops\":[");
    reveal_strlit("]");
    reveal_strlit(",\"crc32\":");
    reveal_strlit(",\"timestamp\":");
    reveal_strlit(",\"tsString\":\"");
    reveal_strlit("\"");
    reveal_strlit(",\"version\":");
    reveal_strlit("}");
    reveal_strlit("-");
    let input = spec_ser_entry(e) + rest;
    let tok1 = "{\"ops\":["@;
    let tok_crc = ",\"crc32\":"@;
    let tok_ts = ",\"timestamp\":"@;
    let tok_tss = ",\"tsString\":\""@;
    let tok_ver = ",\"version\":"@;
    let sops = e.ops@.map_values(|op: OtOp| spec_ser_op(op));
    let r11 = rest;
    let r10 = spec_dec_digits(e.version as nat) + "}"@ + rest;
    let r9 = r10;
    let r8 = tok_ver + r9;
    let r7 = spec_escape(e.ts_string@) + seq!['\"'] + r8;
    let r6 = tok_tss + r7;
    let r5 = spec_i64_digits(e.timestamp as int) + r6;
    let r4 = tok_ts + r5;
    let r3 = spec_dec_digits(e.crc32 as nat) + r4;
    let r2 = tok_crc + r3;
    let r1 = spec_join_ids(sops) + seq![']'] + r2;
    assert(input =~= tok1 + r1);
    lemma_expect_prefix(tok1, r1);
    lemma_rt_ops(e.ops@, r2);
    lemma_expect_prefix(tok_crc, r3);
    crate::jsontext::lemma_dec_digits_are_digits(e.crc32 as nat);
    assert(r4[0] == ',');
    crate::jsontext::lemma_parse_dec_digits(e.crc32 as nat, r4);
    assert(spec_dec_digits(e.crc32 as nat) + r4 =~= r3);
    lemma_expect_prefix(tok_ts, r5);
    assert(r6[0] == ',');
    if e.timestamp < 0 {
        assert(spec_i64_digits(e.timestamp as int) == seq!['-'] + spec_dec_digits(
            (-(e.timestamp as int)) as nat,
        ));
        assert(r5 =~= seq!['-'] + (spec_dec_digits((-(e.timestamp as int)) as nat) + r6));
        assert(r5[0] == '-');
        crate::jsontext::lemma_parse_dec_digits((-(e.timestamp as int)) as nat, r6);
        crate::jsontext::lemma_dec_digits_are_digits((-(e.timestamp as int)) as nat);
        assert(r5.skip(1) =~= spec_dec_digits((-(e.timestamp as int)) as nat) + r6);
        assert(spec_parse_signed(r5) == Some((e.timestamp as int, r6)));
    } else {
        assert(spec_i64_digits(e.timestamp as int) == spec_dec_digits(e.timestamp as nat));
        assert(r5 =~= spec_dec_digits(e.timestamp as nat) + r6);
        crate::jsontext::lemma_parse_dec_digits(e.timestamp as nat, r6);
        crate::jsontext::lemma_dec_digits_are_digits(e.timestamp as nat);
        assert(r5[0] == spec_dec_digits(e.timestamp as nat)[0]);
        assert(spec_is_digit(r5[0]));
        assert(r5[0] != '-');
        assert(spec_parse_signed(r5) == Some((e.timestamp as int, r6)));
    }
    lemma_expect_prefix(tok_tss, r7);
    crate::jsonstr::lemma_parse_escape(e.ts_string@, r8);
    assert(spec_escape(e.ts_string@) + seq!['\"'] + r8 =~= r7);
    lemma_expect_prefix(tok_ver, r9);
    crate::jsontext::lemma_dec_digits_are_digits(e.version as nat);
    assert(r10 =~= spec_dec_digits(e.version as nat) + ("}"@ + rest));
    assert(("}"@ + rest)[0] == '}');
    crate::jsontext::lemma_parse_dec_digits(e.version as nat, "}"@ + rest);
    lemma_expect_prefix("}"@, rest);
}

/// Parsing a serialized entry list, its closing bracket, and anything
/// after recovers the entries' shapes.
#[verifier::rlimit(80)]
proof fn lemma_rt_entries(entries: Seq<OtLogEntry>, rest: Seq<char>)
    ensures
        spec_parse_entries(
            spec_join_ids(entries.map_values(|e: OtLogEntry| spec_ser_entry(e))) + seq![']']
                + rest,
        ) == Some((entries.map_values(|e: OtLogEntry| spec_entry_view(e)), rest)),
    decreases entries.len(),
{
    let sentries = entries.map_values(|e: OtLogEntry| spec_ser_entry(e));
    let ventries = entries.map_values(|e: OtLogEntry| spec_entry_view(e));
    let input = spec_join_ids(sentries) + seq![']'] + rest;
    if entries.len() == 0 {
        assert(input =~= seq![']'] + rest);
        assert(input[0] == ']');
        assert(input.skip(1) =~= rest);
        assert(ventries =~= Seq::<EntryView>::empty());
    } else if entries.len() == 1 {
        lemma_ser_entry_head(entries[0]);
        assert(spec_join_ids(sentries) == sentries[0]);
        assert(input =~= spec_ser_entry(entries[0]) + (seq![']'] + rest));
        assert(input[0] == '{');
        lemma_rt_entry(entries[0], seq![']'] + rest);
        let after = seq![']'] + rest;
        assert(after[0] == ']');
        assert(after.len() < input.len());
        assert(after.skip(1) =~= rest);
        assert(seq![spec_entry_view(entries[0])] =~= ventries);
    } else {
        lemma_ser_entry_head(entries[0]);
        assert(sentries[0] == spec_ser_entry(entries[0]));
        assert(spec_join_ids(sentries) == sentries[0] + seq![','] + spec_join_ids(
            sentries.skip(1),
        ));
        assert(sentries.skip(1) =~= entries.skip(1).map_values(
            |e: OtLogEntry| spec_ser_entry(e),
        ));
        let inner = spec_join_ids(sentries.skip(1)) + seq![']'] + rest;
        let after = seq![','] + inner;
        assert(input =~= spec_ser_entry(entries[0]) + after);
        assert(input[0] == '{');
        lemma_rt_entry(entries[0], after);
        assert(after[0] == ',');
        assert(after.len() < input.len());
        assert(after.skip(1) =~= inner);
        lemma_rt_entries(entries.skip(1), rest);
        let vtail = entries.skip(1).map_values(|e: OtLogEntry| spec_entry_view(e));
        assert(vtail.len() == entries.len() - 1 >= 1);
        assert(seq![spec_entry_view(entries[0])] + vtail =~= ventries);
    }
}

/// Serialising a log and parsing the text back yields entry for entry
/// the same ops, checksums, timestamps, rendered timestamps and
/// versions.
pub proof fn lemma_log_roundtrip(entries: Seq<OtLogEntry>)
    ensures
        spec_parse_log(spec_ser_log(entries)) == Some(
            entries.map_values(|e: OtLogEntry| spec_entry_view(e)),
        ),
{
    reveal_strlit("[");
    reveal_strlit("]");
    let text = spec_ser_log(entries);
    let sentries = entries.map_values(|e: OtLogEntry| spec_ser_entry(e));
    let body = spec_join_ids(sentries) + seq![']'] + Seq::<char>::empty();
    assert(text =~= "["@ + body);
    lemma_expect_prefix("["@, body);
    lemma_rt_entries(entries, Seq::<char>::empty());
}


/// A parse result with `prefix` prepended to its text.
pub open spec fn spec_prepend_text(prefix: Seq<char>, o: Option<(Seq<char>, Seq<char>)>) -> Option<
    (Seq<char>, Seq<char>),
> {
    match o {
        Some((t, r)) => Some((prefix + t, r)),
        None => None,
    }
}

/// A list parse result with `pre` prepended, empty continuations
/// refused once something has been consumed.
pub open spec fn spec_prepend_ops(pre: Seq<OpView>, o: Option<(Seq<OpView>, Seq<char>)>) -> Option<
    (Seq<OpView>, Seq<char>),
> {
    if pre.len() == 0 {
        o
    } else {
        match o {
            Some((vs, r)) => if vs.len() >= 1 {
                Some((pre + vs, r))
            } else {
                None
            },
            None => None,
        }
    }
}

/// Prepending distributes over taking one more element up front.
proof fn lemma_prepend_ops_assoc(pre: Seq<OpView>, v: OpView, o: Option<(Seq<OpView>, Seq<char>)>)
    ensures
        spec_prepend_ops(pre, spec_prepend_ops(seq![v], o)) == spec_prepend_ops(pre.push(v), o),
{
    match o {
        Some((vs, r)) => {
            if vs.len() >= 1 {
                assert(seq![v] + vs =~= seq![v] + vs);
                if pre.len() == 0 {
                    assert(pre.push(v) + vs =~= seq![v] + vs);
                } else {
                    assert(pre + (seq![v] + vs) =~= pre.push(v) + vs);
                }
            }
        },
        None => {},
    }
}

/// The same, for entry lists.
pub open spec fn spec_prepend_entries(
    pre: Seq<EntryView>,
    o: Option<(Seq<EntryView>, Seq<char>)>,
) -> Option<(Seq<EntryView>, Seq<char>)> {
    if pre.len() == 0 {
        o
    } else {
        match o {
            Some((vs, r)) => if vs.len() >= 1 {
                Some((pre + vs, r))
            } else {
                None
            },
            None => None,
        }
    }
}

proof fn lemma_prepend_entries_assoc(
    pre: Seq<EntryView>,
    v: EntryView,
    o: Option<(Seq<EntryView>, Seq<char>)>,
)
    ensures
        spec_prepend_entries(pre, spec_prepend_entries(seq![v], o)) == spec_prepend_entries(
            pre.push(v),
            o,
        ),
{
    match o {
        Some((vs, r)) => {
            if vs.len() >= 1 {
                if pre.len() == 0 {
                    assert(pre.push(v) + vs =~= seq![v] + vs);
                } else {
                    assert(pre + (seq![v] + vs) =~= pre.push(v) + vs);
                }
            }
        },
        None => {},
    }
}

/// The characters of a string, gathered into a vector.
fn str_chars(s: &str) -> (v: Vec<char>)
    ensures
        v@ == s@,
{
    let n = s.unicode_len();
    let mut v: Vec<char> = Vec::new();
    let mut i: usize = 0;
    while i < n
        invariant
            i <= n,
            n == s@.len(),
            v@ =~= s@.take(i as int),
        decreases n - i,
    {
        v.push(s.get_char(i));
        proof {
            assert(v@ =~= s@.take(i as int + 1));
        }
        i = i + 1;
    }
    proof {
        assert(s@.take(n as int) =~= s@);
    }
    v
}

/// Consumes an exact token at `pos`, reporting the position after it.
fn expect_at(v: &Vec<char>, pos: usize, lit: &str) -> (r: Option<usize>)
    requires
        pos <= v@.len(),
    ensures
        match r {
            Some(j) => pos <= j <= v@.len() && j - pos == lit@.len() && spec_expect(
                v@.skip(pos as int),
                lit@,
            ) == Some(v@.skip(j as int)),
            None => spec_expect(v@.skip(pos as int), lit@) is None,
        },
{
    let m = lit.unicode_len();
    let n = v.len();
    if n - pos < m {
        return None;
    }
    let mut k: usize = 0;
    while k < m
        invariant
            k <= m,
            m == lit@.len(),
            pos + m <= n,
            n == v@.len(),
            forall|t: int| 0 <= t < k ==> v@[pos + t] == lit@[t],
        decreases m - k,
    {
        if v[pos + k] != lit.get_char(k) {
            proof {
                let inp = v@.skip(pos as int);
                if inp.len() >= lit@.len() && inp.take(lit@.len() as int) == lit@ {
                    assert(inp.take(lit@.len() as int)[k as int] == lit@[k as int]);
                    assert(inp[k as int] == v@[pos + k]);
                    assert(false);
                }
            }
            return None;
        }
        k = k + 1;
    }
    proof {
        let inp = v@.skip(pos as int);
        assert(inp.take(m as int) =~= lit@);
        assert(inp.skip(m as int) =~= v@.skip(pos as int + m as int));
    }
    Some(pos + m)
}

/// One control character, recovered from its code.
fn control_str(code: u32) -> (r: &'static str)
    requires
        code < 0x20,
    ensures
        r@ == seq![(code as int) as char],
{
    proof {
        reveal_strlit("\u{0}");
        reveal_strlit("\u{1}");
        reveal_strlit("\u{2}");
        reveal_strlit("\u{3}");
        reveal_strlit("\u{4}");
        reveal_strlit("\u{5}");
        reveal_strlit("\u{6}");
        reveal_strlit("\u{7}");
        reveal_strlit("\u{8}");
        reveal_strlit("\u{9}");
        reveal_strlit("\u{a}");
        reveal_strlit("\u{b}");
        reveal_strlit("\u{c}");
        reveal_strlit("\u{d}");
        reveal_strlit("\u{e}");
        reveal_strlit("\u{f}");
        reveal_strlit("\u{10}");
        reveal_strlit("\u{11}");
        reveal_strlit("\u{12}");
        reveal_strlit("\u{13}");
        reveal_strlit("\u{14}");
        reveal_strlit("\u{15}");
        reveal_strlit("\u{16}");
        reveal_strlit("\u{17}");
        reveal_strlit("\u{18}");
        reveal_strlit("\u{19}");
        reveal_strlit("\u{1a}");
        reveal_strlit("\u{1b}");
        reveal_strlit("\u{1c}");
        reveal_strlit("\u{1d}");
        reveal_strlit("\u{1e}");
        reveal_strlit("\u{1f}");
    }
    let r = match code {
        0 => "\u{0}",
        1 => "\u{1}",
        2 => "\u{2}",
        3 => "\u{3}",
        4 => "\u{4}",
        5 => "\u{5}",
        6 => "\u{6}",
        7 => "\u{7}",
        8 => "\u{8}",
        9 => "\u{9}",
        10 => "\u{a}",
        11 => "\u{b}",
        12 => "\u{c}",
        13 => "\u{d}",
        14 => "\u{e}",
        15 => "\u{f}",
        16 => "\u{10}",
        17 => "\u{11}",
        18 => "\u{12}",
        19 => "\u{13}",
        20 => "\u{14}",
        21 => "\u{15}",
        22 => "\u{16}",
        23 => "\u{17}",
        24 => "\u{18}",
        25 => "\u{19}",
        26 => "\u{1a}",
        27 => "\u{1b}",
        28 => "\u{1c}",
        29 => "\u{1d}",
        30 => "\u{1e}",
        _ => "\u{1f}",
    };
    proof {
        assert(r@ =~= seq![(code as int) as char]);
    }
    r
}

/// The value of a lowercase hexadecimal digit character, if it is one.
fn hex_val(c: char) -> (r: Option<u32>)
    ensures
        match r {
            Some(d) => crate::jsonstr::spec_is_hex_digit(c) && d == crate::jsonstr::spec_hex_val(
                c,
            ) && d < 16,
            None => !crate::jsonstr::spec_is_hex_digit(c),
        },
{
    let u = c as u32;
    if u >= 48 && u <= 57 {
        Some(u - 48)
    } else if u >= 97 && u <= 102 {
        Some(u - 97 + 10)
    } else {
        None
    }
}

/// Parses a quoted string's body from just after the opening quote,
/// through the closing quote.
fn parse_jstring_at(s: &str, v: &Vec<char>, pos: usize) -> (r: Option<(String, usize)>)
    requires
        v@ == s@,
        pos <= v@.len(),
    ensures
        match r {
            Some((out, j)) => pos <= j <= v@.len() && spec_parse_jstring_body(v@.skip(pos as int))
                == Some((out@, v@.skip(j as int))),
            None => spec_parse_jstring_body(v@.skip(pos as int)) is None,
        },
{
    let n = v.len();
    let mut out = String::new();
    let mut i: usize = pos;
    proof {
        assert(out@ + Seq::<char>::empty() =~= Seq::<char>::empty());
    }
    while i < n
        invariant
            pos <= i <= n,
            n == v@.len(),
            v@ == s@,
            spec_parse_jstring_body(v@.skip(pos as int)) == spec_prepend_text(
                out@,
                spec_parse_jstring_body(v@.skip(i as int)),
            ),
        decreases n - i,
    {
        let ghost inp = v@.skip(i as int);
        proof {
            reveal_strlit("\"");
            reveal_strlit("\\");
            reveal_strlit("\n");
            reveal_strlit("\r");
            reveal_strlit("\t");
            assert(inp[0] == v@[i as int]);
        }
        let c = v[i];
        if c == '"' {
            proof {
                assert(inp.skip(1) =~= v@.skip(i as int + 1));
                assert(spec_parse_jstring_body(inp) == Some(
                    (Seq::<char>::empty(), v@.skip(i as int + 1)),
                ));
                assert(out@ + Seq::<char>::empty() =~= out@);
            }
            return Some((out, i + 1));
        }
        if c == '\\' {
            if n - i < 2 {
                proof {
                    assert(inp.len() < 2);
                }
                return None;
            }
            let e = v[i + 1];
            proof {
                assert(inp[1] == v@[i as int + 1]);
            }
            if e == '"' || e == '\\' || e == 'n' || e == 'r' || e == 't' {
                let ghost out0 = out@;
                let ghost cc: char = if e == '"' {
                    '"'
                } else if e == '\\' {
                    '\\'
                } else if e == 'n' {
                    '\n'
                } else if e == 'r' {
                    '\r'
                } else {
                    '\t'
                };
                if e == '"' {
                    out.append("\"");
                } else if e == '\\' {
                    out.append("\\");
                } else if e == 'n' {
                    out.append("\n");
                } else if e == 'r' {
                    out.append("\r");
                } else {
                    out.append("\t");
                }
                proof {
                    assert(out@ =~= out0 + seq![cc]);
                    assert(inp.skip(2) =~= v@.skip(i as int + 2));
                    assert(spec_parse_jstring_body(inp) == spec_prepend_text(
                        seq![cc],
                        spec_parse_jstring_body(v@.skip(i as int + 2)),
                    ));
                    assert forall|o: Option<(Seq<char>, Seq<char>)>|
                        spec_prepend_text(out0, spec_prepend_text(seq![cc], o))
                            == spec_prepend_text(out0 + seq![cc], o) by {
                        match o {
                            Some((t, r)) => {
                                assert(out0 + (seq![cc] + t) =~= (out0 + seq![cc]) + t);
                            },
                            None => {},
                        }
                    }
                }
                i = i + 2;
            } else if e == 'u' {
                if n - i < 6 {
                    proof {
                        assert(inp.len() < 6);
                    }
                    return None;
                }
                proof {
                    reveal_strlit("0");
                    assert(inp[2] == v@[i as int + 2]);
                    assert(inp[3] == v@[i as int + 3]);
                    assert(inp[4] == v@[i as int + 4]);
                    assert(inp[5] == v@[i as int + 5]);
                }
                if !(v[i + 2] == '0' && v[i + 3] == '0') {
                    return None;
                }
                let h = match hex_val(v[i + 4]) {
                    Some(h) => h,
                    None => {
                        return None;
                    },
                };
                let l = match hex_val(v[i + 5]) {
                    Some(l) => l,
                    None => {
                        return None;
                    },
                };
                let code = 16 * h + l;
                if code >= 0x20 {
                    return None;
                }
                let ghost out0 = out@;
                out.append(control_str(code));
                proof {
                    let ghost cc = (code as int) as char;
                    assert(out@ =~= out0 + seq![cc]);
                    assert(inp.skip(6) =~= v@.skip(i as int + 6));
                    assert(spec_parse_jstring_body(inp) == spec_prepend_text(
                        seq![cc],
                        spec_parse_jstring_body(v@.skip(i as int + 6)),
                    ));
                    assert forall|o: Option<(Seq<char>, Seq<char>)>|
                        spec_prepend_text(out0, spec_prepend_text(seq![cc], o))
                            == spec_prepend_text(out0 + seq![cc], o) by {
                        match o {
                            Some((t, r)) => {
                                assert(out0 + (seq![cc] + t) =~= (out0 + seq![cc]) + t);
                            },
                            None => {},
                        }
                    }
                }
                i = i + 6;
            } else {
                return None;
            }
        } else {
            let ghost out0 = out@;
            let piece = s.substring_char(i, i + 1);
            out.append(piece);
            proof {
                assert(piece@ =~= seq![v@[i as int]]);
                assert(out@ =~= out0 + seq![inp[0]]);
                assert(inp.skip(1) =~= v@.skip(i as int + 1));
                assert(spec_parse_jstring_body(inp) == spec_prepend_text(
                    seq![inp[0]],
                    spec_parse_jstring_body(v@.skip(i as int + 1)),
                ));
                assert forall|o: Option<(Seq<char>, Seq<char>)>|
                    spec_prepend_text(out0, spec_prepend_text(seq![inp[0]], o))
                        == spec_prepend_text(out0 + seq![inp[0]], o) by {
                    match o {
                        Some((t, r)) => {
                            assert(out0 + (seq![inp[0]] + t) =~= (out0 + seq![inp[0]]) + t);
                        },
                        None => {},
                    }
                }
            }
            i = i + 1;
        }
    }
    proof {
        assert(v@.skip(n as int).len() == 0);
    }
    None
}


/// Parses a number at `pos`, refusing values above `bound`.
fn parse_number_at(v: &Vec<char>, pos: usize, bound: u64) -> (r: Option<(u64, usize)>)
    requires
        pos <= v@.len(),
    ensures
        match r {
            Some((value, j)) => pos < j <= v@.len() && value <= bound && spec_parse_number(
                v@.skip(pos as int),
                bound as nat,
            ) == Some((value as nat, v@.skip(j as int))),
            None => spec_parse_number(v@.skip(pos as int), bound as nat) is None,
        },
{
    match crate::jsontext::parse_u64_at(v, pos) {
        Some((value, j)) => {
            if value <= bound {
                proof {
                    assert(v@.skip(pos as int)[0] == v@[pos as int]);
                    lemma_parse_digits_consumes(v@.skip(pos as int), 0nat);
                    assert(v@.skip(j as int).len() < v@.skip(pos as int).len());
                }
                Some((value, j))
            } else {
                None
            }
        },
        None => None,
    }
}

/// A digit run at the front is consumed: the remainder is shorter.
proof fn lemma_parse_digits_consumes(input: Seq<char>, acc: nat)
    ensures
        input.len() > 0 && spec_is_digit(input[0]) ==> spec_parse_digits(input, acc).1.len()
            < input.len(),
        spec_parse_digits(input, acc).1.len() <= input.len(),
    decreases input.len(),
{
    if input.len() > 0 && spec_is_digit(input[0]) {
        lemma_parse_digits_consumes(
            input.skip(1),
            (acc * 10 + crate::jsontext::spec_digit_val(input[0])) as nat,
        );
    }
}

/// Parses a possibly negated number at `pos` into a signed 64-bit value.
fn parse_i64_at(v: &Vec<char>, pos: usize) -> (r: Option<(i64, usize)>)
    requires
        pos <= v@.len(),
    ensures
        match r {
            Some((value, j)) => pos < j <= v@.len() && spec_parse_signed(v@.skip(pos as int))
                == Some((value as int, v@.skip(j as int))),
            None => spec_parse_signed(v@.skip(pos as int)) is None,
        },
{
    let n = v.len();
    if pos < n && v[pos] == '-' {
        proof {
            assert(v@.skip(pos as int)[0] == '-');
            assert(v@.skip(pos as int).skip(1) =~= v@.skip(pos as int + 1));
        }
        match parse_number_at(v, pos + 1, 9223372036854775808u64) {
            Some((m, j)) => {
                let value: i64 = if m == 9223372036854775808u64 {
                    i64::MIN
                } else {
                    -(m as i64)
                };
                Some((value, j))
            },
            None => None,
        }
    } else {
        proof {
            if pos < n {
                assert(v@.skip(pos as int)[0] == v@[pos as int]);
            } else {
                assert(v@.skip(pos as int).len() == 0);
            }
        }
        match parse_number_at(v, pos, 9223372036854775807u64) {
            Some((m, j)) => Some((m as i64, j)),
            None => None,
        }
    }
}

/// Parses one serialized op at `pos`.
fn parse_op_at(s: &str, v: &Vec<char>, pos: usize) -> (r: Option<(OtOp, usize)>)
    requires
        v@ == s@,
        pos <= v@.len(),
    ensures
        match r {
            Some((op, j)) => pos < j <= v@.len() && v@.skip(pos as int)[0] == '{'
                && spec_parse_op(v@.skip(pos as int)) == Some(
                (spec_op_view(op), v@.skip(j as int)),
            ),
            None => spec_parse_op(v@.skip(pos as int)) is None,
        },
{
    proof {
        reveal_strlit("{\"insert\":\"");
        reveal_strlit("{\"skip\":");
        reveal_strlit("{\"delete\":");
    }
    let ghost inp = v@.skip(pos as int);
    match expect_at(v, pos, "{\"insert\":\"") {
        Some(p1) => {
            proof {
                reveal_strlit("{\"insert\":\"");
                assert(inp.take("{\"insert\":\""@.len() as int)[0] == inp[0]);
            }
            match parse_jstring_at(s, v, p1) {
                Some((txt, p2)) => match expect_at(v, p2, "}") {
                    Some(p3) => Some((OtOp::Insert(txt), p3)),
                    None => None,
                },
                None => None,
            }
        },
        None => match expect_at(v, pos, "{\"skip\":") {
            Some(p1) => {
                proof {
                    reveal_strlit("{\"skip\":");
                    assert(inp.take("{\"skip\":"@.len() as int)[0] == inp[0]);
                }
                match parse_number_at(v, p1, 4294967295u64) {
                    Some((m, p2)) => match expect_at(v, p2, "}") {
                        Some(p3) => Some((OtOp::Skip(m as u32), p3)),
                        None => None,
                    },
                    None => None,
                }
            },
            None => match expect_at(v, pos, "{\"delete\":") {
                Some(p1) => {
                    proof {
                        reveal_strlit("{\"delete\":");
                        assert(inp.take("{\"delete\":"@.len() as int)[0] == inp[0]);
                    }
                    match parse_number_at(v, p1, 4294967295u64) {
                        Some((m, p2)) => match expect_at(v, p2, "}") {
                            Some(p3) => Some((OtOp::Delete(m as u32), p3)),
                            None => None,
                        },
                        None => None,
                    }
                },
                None => None,
            },
        },
    }
}

/// Parses the op list of one entry, from after its opening bracket
/// through its closing bracket.
fn parse_ops_at(s: &str, v: &Vec<char>, pos: usize) -> (r: Option<(Vec<OtOp>, usize)>)
    requires
        v@ == s@,
        pos <= v@.len(),
    ensures
        match r {
            Some((ops, j)) => pos < j <= v@.len() && spec_parse_ops(v@.skip(pos as int)) == Some(
                (ops@.map_values(|op: OtOp| spec_op_view(op)), v@.skip(j as int)),
            ),
            None => spec_parse_ops(v@.skip(pos as int)) is None,
        },
{
    let n = v.len();
    if pos < n && v[pos] == ']' {
        let ops: Vec<OtOp> = Vec::new();
        proof {
            assert(v@.skip(pos as int)[0] == ']');
            assert(v@.skip(pos as int).skip(1) =~= v@.skip(pos as int + 1));
            assert(ops@.map_values(|op: OtOp| spec_op_view(op)) =~= Seq::<OpView>::empty());
        }
        return Some((ops, pos + 1));
    }
    let mut ops: Vec<OtOp> = Vec::new();
    let mut i: usize = pos;
    proof {
        assert(ops@.map_values(|op: OtOp| spec_op_view(op)) =~= Seq::<OpView>::empty());
        if pos == n {
            assert(v@.skip(pos as int).len() == 0);
        }
    }
    loop
        invariant
            pos <= i <= n,
            n == v@.len(),
            v@ == s@,
            i == pos || ops@.len() >= 1,
            v@.skip(pos as int).len() == 0 || v@.skip(pos as int)[0] != ']',
            spec_parse_ops(v@.skip(pos as int)) == spec_prepend_ops(
                ops@.map_values(|op: OtOp| spec_op_view(op)),
                spec_parse_ops(v@.skip(i as int)),
            ),
        decreases n - i + 1,
    {
        let ghost inp = v@.skip(i as int);
        let ghost pre = ops@.map_values(|op: OtOp| spec_op_view(op));
        match parse_op_at(s, v, i) {
            Some((op, j)) => {
                proof {
                    assert(inp[0] == '{');
                    assert(inp[0] != ']');
                    assert(v@.skip(j as int).len() < inp.len());
                }
                let ghost rest = v@.skip(j as int);
                if j < n && v[j] == ',' {
                    let ghost before = ops@;
                    ops.push(op);
                    proof {
                        assert(rest[0] == ',');
                        assert(rest.skip(1) =~= v@.skip(j as int + 1));
                        assert(spec_parse_ops(inp) == spec_prepend_ops(
                            seq![spec_op_view(op)],
                            spec_parse_ops(v@.skip(j as int + 1)),
                        ));
                        lemma_prepend_ops_assoc(
                            pre,
                            spec_op_view(op),
                            spec_parse_ops(v@.skip(j as int + 1)),
                        );
                        assert(ops@.map_values(|op: OtOp| spec_op_view(op)) =~= pre.push(
                            spec_op_view(op),
                        ));
                    }
                    i = j + 1;
                } else if j < n && v[j] == ']' {
                    let ghost before = ops@;
                    ops.push(op);
                    proof {
                        assert(rest[0] == ']');
                        assert(rest.skip(1) =~= v@.skip(j as int + 1));
                        assert(spec_parse_ops(inp) == Some(
                            (seq![spec_op_view(op)], v@.skip(j as int + 1)),
                        ));
                        assert(ops@.map_values(|op: OtOp| spec_op_view(op)) =~= pre.push(
                            spec_op_view(op),
                        ));
                        assert(pre.push(spec_op_view(op)) =~= pre + seq![spec_op_view(op)]);
                    }
                    return Some((ops, j + 1));
                } else {
                    proof {
                        if j < n {
                            assert(rest[0] == v@[j as int]);
                        } else {
                            assert(rest.len() == 0);
                        }
                        assert(spec_parse_ops(inp) is None);
                    }
                    return None;
                }
            },
            None => {
                proof {
                    if inp.len() == 0 {
                        assert(spec_parse_ops(inp) is None);
                    } else if inp[0] == ']' {
                        assert(spec_parse_ops(inp) == Some(
                            (Seq::<OpView>::empty(), inp.skip(1)),
                        ));
                        assert(i > pos);
                        assert(ops@.len() >= 1);
                    } else {
                        assert(spec_parse_ops(inp) is None);
                    }
                }
                return None;
            },
        }
    }
}


/// Parses one serialized entry at `pos`.
fn parse_entry_at(s: &str, v: &Vec<char>, pos: usize) -> (r: Option<(OtLogEntry, usize)>)
    requires
        v@ == s@,
        pos <= v@.len(),
    ensures
        match r {
            Some((e, j)) => pos < j <= v@.len() && v@.skip(pos as int)[0] == '{'
                && spec_parse_entry(v@.skip(pos as int)) == Some(
                (spec_entry_view(e), v@.skip(j as int)),
            ),
            None => spec_parse_entry(v@.skip(pos as int)) is None,
        },
{
    proof {
        reveal_strlit("{\"ops\":[");
    }
    let ghost inp = v@.skip(pos as int);
    let p1 = match expect_at(v, pos, "{\"ops\":[") {
        Some(p) => p,
        None => {
            return None;
        },
    };
    proof {
        assert(inp.take("{\"ops\":["@.len() as int)[0] == inp[0]);
    }
    let (ops, p2) = match parse_ops_at(s, v, p1) {
        Some(x) => x,
        None => {
            return None;
        },
    };
    let p3 = match expect_at(v, p2, ",\"crc32\":") {
        Some(p) => p,
        None => {
            return None;
        },
    };
    let (crc, p4) = match parse_number_at(v, p3, 4294967295u64) {
        Some(x) => x,
        None => {
            return None;
        },
    };
    let p5 = match expect_at(v, p4, ",\"timestamp\":") {
        Some(p) => p,
        None => {
            return None;
        },
    };
    let (ts, p6) = match parse_i64_at(v, p5) {
        Some(x) => x,
        None => {
            return None;
        },
    };
    let p7 = match expect_at(v, p6, ",\"tsString\":\"") {
        Some(p) => p,
        None => {
            return None;
        },
    };
    let (tss, p8) = match parse_jstring_at(s, v, p7) {
        Some(x) => x,
        None => {
            return None;
        },
    };
    let p9 = match expect_at(v, p8, ",\"version\":") {
        Some(p) => p,
        None => {
            return None;
        },
    };
    let (ver, p10) = match parse_number_at(v, p9, 4294967295u64) {
        Some(x) => x,
        None => {
            return None;
        },
    };
    let p11 = match expect_at(v, p10, "}") {
        Some(p) => p,
        None => {
            return None;
        },
    };
    let e = OtLogEntry {
        ops,
        crc32: crc as u32,
        timestamp: ts,
        ts_string: tss,
        version: ver as u32,
    };
    proof {
        assert(spec_parse_entry(inp) == Some((spec_entry_view(e), v@.skip(p11 as int))));
    }
    Some((e, p11))
}

/// Parses the entry list of a log, from after the opening bracket
/// through the closing bracket.
fn parse_entries_at(s: &str, v: &Vec<char>, pos: usize) -> (r: Option<(Vec<OtLogEntry>, usize)>)
    requires
        v@ == s@,
        pos <= v@.len(),
    ensures
        match r {
            Some((es, j)) => pos < j <= v@.len() && spec_parse_entries(v@.skip(pos as int))
                == Some((es@.map_values(|e: OtLogEntry| spec_entry_view(e)), v@.skip(j as int))),
            None => spec_parse_entries(v@.skip(pos as int)) is None,
        },
{
    let n = v.len();
    if pos < n && v[pos] == ']' {
        let es: Vec<OtLogEntry> = Vec::new();
        proof {
            assert(v@.skip(pos as int)[0] == ']');
            assert(v@.skip(pos as int).skip(1) =~= v@.skip(pos as int + 1));
            assert(es@.map_values(|e: OtLogEntry| spec_entry_view(e)) =~= Seq::<
                EntryView,
            >::empty());
        }
        return Some((es, pos + 1));
    }
    let mut es: Vec<OtLogEntry> = Vec::new();
    let mut i: usize = pos;
    proof {
        assert(es@.map_values(|e: OtLogEntry| spec_entry_view(e)) =~= Seq::<EntryView>::empty());
        if pos == n {
            assert(v@.skip(pos as int).len() == 0);
        }
    }
    loop
        invariant
            pos <= i <= n,
            n == v@.len(),
            v@ == s@,
            i == pos || es@.len() >= 1,
            v@.skip(pos as int).len() == 0 || v@.skip(pos as int)[0] != ']',
            spec_parse_entries(v@.skip(pos as int)) == spec_prepend_entries(
                es@.map_values(|e: OtLogEntry| spec_entry_view(e)),
                spec_parse_entries(v@.skip(i as int)),
            ),
        decreases n - i + 1,
    {
        let ghost inp = v@.skip(i as int);
        let ghost pre = es@.map_values(|e: OtLogEntry| spec_entry_view(e));
        match parse_entry_at(s, v, i) {
            Some((e, j)) => {
                proof {
                    assert(inp[0] == '{');
                    assert(inp[0] != ']');
                    assert(v@.skip(j as int).len() < inp.len());
                }
                let ghost rest = v@.skip(j as int);
                if j < n && v[j] == ',' {
                    let ghost ev = spec_entry_view(e);
                    es.push(e);
                    proof {
                        assert(rest[0] == ',');
                        assert(rest.skip(1) =~= v@.skip(j as int + 1));
                        assert(spec_parse_entries(inp) == spec_prepend_entries(
                            seq![ev],
                            spec_parse_entries(v@.skip(j as int + 1)),
                        ));
                        lemma_prepend_entries_assoc(
                            pre,
                            ev,
                            spec_parse_entries(v@.skip(j as int + 1)),
                        );
                        assert(es@.map_values(|e: OtLogEntry| spec_entry_view(e)) =~= pre.push(
                            ev,
                        ));
                    }
                    i = j + 1;
                } else if j < n && v[j] == ']' {
                    let ghost ev = spec_entry_view(e);
                    es.push(e);
                    proof {
                        assert(rest[0] == ']');
                        assert(rest.skip(1) =~= v@.skip(j as int + 1));
                        assert(spec_parse_entries(inp) == Some(
                            (seq![ev], v@.skip(j as int + 1)),
                        ));
                        assert(es@.map_values(|e: OtLogEntry| spec_entry_view(e)) =~= pre.push(
                            ev,
                        ));
                        assert(pre.push(ev) =~= pre + seq![ev]);
                    }
                    return Some((es, j + 1));
                } else {
                    proof {
                        if j < n {
                            assert(rest[0] == v@[j as int]);
                        } else {
                            assert(rest.len() == 0);
                        }
                        assert(spec_parse_entries(inp) is None);
                    }
                    return None;
                }
            },
            None => {
                proof {
                    if inp.len() == 0 {
                        assert(spec_parse_entries(inp) is None);
                    } else if inp[0] == ']' {
                        assert(spec_parse_entries(inp) == Some(
                            (Seq::<EntryView>::empty(), inp.skip(1)),
                        ));
                        assert(i > pos);
                        assert(es@.len() >= 1);
                    } else {
                        assert(spec_parse_entries(inp) is None);
                    }
                }
                return None;
            },
        }
    }
}

/// Parses a whole archived log back from its JSON text. The text must be
/// exactly a serialized log; on success the entries carry, op for op and
/// field for field, what `spec_parse_log` reads out of the text.
pub fn parse_log(s: &str) -> (r: Option<Vec<OtLogEntry>>)
    ensures
        match r {
            Some(es) => spec_parse_log(s@) == Some(
                es@.map_values(|e: OtLogEntry| spec_entry_view(e)),
            ),
            None => spec_parse_log(s@) is None,
        },
{
    let v = str_chars(s);
    proof {
        assert(v@.skip(0int) =~= s@);
    }
    let p1 = match expect_at(&v, 0, "[") {
        Some(p) => p,
        None => {
            return None;
        },
    };
    match parse_entries_at(s, &v, p1) {
        Some((es, j)) => {
            if j == v.len() {
                proof {
                    assert(v@.skip(j as int).len() == 0);
                }
                Some(es)
            } else {
                proof {
                    assert(v@.skip(j as int).len() != 0);
                }
                None
            }
        },
        None => None,
    }
}

} // verus!
