//! JSON string bodies: escaping arbitrary text for a quoted string, the
//! strict parser for exactly that escaped form, and the proof that the
//! parser undoes the escaper.

use vstd::prelude::*;

verus! {

/// The lowercase hexadecimal digit character for a value below sixteen.
pub open spec fn spec_hex_digit_char(d: int) -> char {
    if d < 10 {
        crate::jsontext::spec_digit_char(d)
    } else if d == 10 {
        'a'
    } else if d == 11 {
        'b'
    } else if d == 12 {
        'c'
    } else if d == 13 {
        'd'
    } else if d == 14 {
        'e'
    } else {
        'f'
    }
}

/// Whether a character is a lowercase hexadecimal digit.
pub open spec fn spec_is_hex_digit(c: char) -> bool {
    ('0' <= c <= '9') || ('a' <= c <= 'f')
}

/// The value of a lowercase hexadecimal digit.
pub open spec fn spec_hex_val(c: char) -> int {
    if '0' <= c <= '9' {
        c as int - '0' as int
    } else {
        c as int - 'a' as int + 10
    }
}

/// How one character appears inside a quoted JSON string: quotes and
/// backslashes and the common control characters get their two-character
/// escapes, the remaining control characters a `\u00..` escape, and
/// everything else stands as itself.
pub open spec fn spec_escape_char(c: char) -> Seq<char> {
    if c == '"' {
        seq!['\\', '"']
    } else if c == '\\' {
        seq!['\\', '\\']
    } else if c == '\n' {
        seq!['\\', 'n']
    } else if c == '\r' {
        seq!['\\', 'r']
    } else if c == '\t' {
        seq!['\\', 't']
    } else if (c as int) < 0x20 {
        seq!['\\', 'u', '0', '0', spec_hex_digit_char((c as int) / 16), spec_hex_digit_char((c as int) % 16)]
    } else {
        seq![c]
    }
}

/// A whole string escaped character by character.
pub open spec fn spec_escape(s: Seq<char>) -> Seq<char>
    decreases s.len(),
{
    if s.len() == 0 {
        Seq::empty()
    } else {
        spec_escape_char(s[0]) + spec_escape(s.skip(1))
    }
}

/// Escaping one more character appends its escape.
pub proof fn lemma_escape_snoc(s: Seq<char>, c: char)
    ensures
        spec_escape(s.push(c)) == spec_escape(s) + spec_escape_char(c),
    decreases s.len(),
{
    if s.len() == 0 {
        assert(s.push(c)[0] == c);
        assert(s.push(c).skip(1) =~= Seq::<char>::empty());
        assert(spec_escape(s.push(c)) == spec_escape_char(c) + spec_escape(
            Seq::<char>::empty(),
        ));
        assert(spec_escape(Seq::<char>::empty()) == Seq::<char>::empty());
        assert(spec_escape(s) == Seq::<char>::empty());
        assert(spec_escape(s.push(c)) =~= spec_escape(s) + spec_escape_char(c));
    } else {
        assert(s.push(c)[0] == s[0]);
        assert(s.push(c).skip(1) =~= s.skip(1).push(c));
        lemma_escape_snoc(s.skip(1), c);
        assert(spec_escape(s.push(c)) =~= spec_escape(s) + spec_escape_char(c));
    }
}

/// One lowercase hexadecimal digit as a string slice.
fn hex_digit_str(d: u32) -> (r: &'static str)
    requires
        d < 16,
    ensures
        r@ == seq![spec_hex_digit_char(d as int)],
{
    proof {
        reveal_strlit("a");
        reveal_strlit("b");
        reveal_strlit("c");
        reveal_strlit("d");
        reveal_strlit("e");
        reveal_strlit("f");
    }
    if d < 10 {
        crate::jsontext::digit_str(d as u64)
    } else {
        let r = match d {
            10 => "a",
            11 => "b",
            12 => "c",
            13 => "d",
            14 => "e",
            _ => "f",
        };
        proof {
            assert(r@ =~= seq![spec_hex_digit_char(d as int)]);
        }
        r
    }
}

/// Appends the escaped form of `s`.
pub fn push_escaped(out: &mut String, s: &str)
    ensures
        final(out)@ == old(out)@ + spec_escape(s@),
{
    let n = s.unicode_len();
    let mut i: usize = 0;
    proof {
        assert(s@.take(0int) =~= Seq::<char>::empty());
        assert(old(out)@ + spec_escape(s@.take(0int)) =~= old(out)@);
    }
    while i < n
        invariant
            i <= n,
            n == s@.len(),
            out@ == old(out)@ + spec_escape(s@.take(i as int)),
        decreases n - i,
    {
        let c = s.get_char(i);
        proof {
            reveal_strlit("\\\"");
            reveal_strlit("\\\\");
            reveal_strlit("\\n");
            reveal_strlit("\\r");
            reveal_strlit("\\t");
            reveal_strlit("\\u00");
        }
        if c == '"' {
            out.append("\\\"");
            proof {
                assert("\\\""@ =~= spec_escape_char(c));
            }
        } else if c == '\\' {
            out.append("\\\\");
            proof {
                assert("\\\\"@ =~= spec_escape_char(c));
            }
        } else if c == '\n' {
            out.append("\\n");
            proof {
                assert("\\n"@ =~= spec_escape_char(c));
            }
        } else if c == '\r' {
            out.append("\\r");
            proof {
                assert("\\r"@ =~= spec_escape_char(c));
            }
        } else if c == '\t' {
            out.append("\\t");
            proof {
                assert("\\t"@ =~= spec_escape_char(c));
            }
        } else if (c as u32) < 0x20 {
            let code = c as u32;
            out.append("\\u00");
            out.append(hex_digit_str(code / 16));
            out.append(hex_digit_str(code % 16));
            proof {
                assert("\\u00"@ =~= seq!['\\', 'u', '0', '0']);
                assert("\\u00"@ + seq![spec_hex_digit_char(code as int / 16)] + seq![
                    spec_hex_digit_char(code as int % 16),
                ] =~= spec_escape_char(c));
            }
        } else {
            let piece = s.substring_char(i, i + 1);
            out.append(piece);
            proof {
                assert(piece@ =~= seq![s@[i as int]]);
                assert(piece@ =~= spec_escape_char(c));
            }
        }
        proof {
            assert(s@.take(i as int + 1) =~= s@.take(i as int).push(s@[i as int]));
            lemma_escape_snoc(s@.take(i as int), s@[i as int]);
            assert(out@ =~= old(out)@ + spec_escape(s@.take(i as int + 1)));
        }
        i = i + 1;
    }
    proof {
        assert(s@.take(n as int) =~= s@);
    }
}

/// What a quoted string body parses to: the text up to the closing
/// quote, unescaped, and what follows the quote. Only the escapes the
/// escaper emits are accepted.
pub open spec fn spec_parse_jstring_body(input: Seq<char>) -> Option<(Seq<char>, Seq<char>)>
    decreases input.len(),
{
    if input.len() == 0 {
        None
    } else if input[0] == '"' {
        Some((Seq::empty(), input.skip(1)))
    } else if input[0] == '\\' {
        if input.len() < 2 {
            None
        } else {
            let e = input[1];
            if e == '"' || e == '\\' || e == 'n' || e == 'r' || e == 't' {
                let c = if e == '"' {
                    '"'
                } else if e == '\\' {
                    '\\'
                } else if e == 'n' {
                    '\n'
                } else if e == 'r' {
                    '\r'
                } else {
                    '\t'
                };
                match spec_parse_jstring_body(input.skip(2)) {
                    Some((tail, rest)) => Some((seq![c] + tail, rest)),
                    None => None,
                }
            } else if e == 'u' {
                if input.len() < 6 {
                    None
                } else if input[2] == '0' && input[3] == '0' && spec_is_hex_digit(input[4])
                    && spec_is_hex_digit(input[5]) && 16 * spec_hex_val(input[4]) + spec_hex_val(
                    input[5],
                ) < 0x20 {
                    let code = 16 * spec_hex_val(input[4]) + spec_hex_val(input[5]);
                    match spec_parse_jstring_body(input.skip(6)) {
                        Some((tail, rest)) => Some((seq![code as char] + tail, rest)),
                        None => None,
                    }
                } else {
                    None
                }
            } else {
                None
            }
        }
    } else {
        match spec_parse_jstring_body(input.skip(1)) {
            Some((tail, rest)) => Some((seq![input[0]] + tail, rest)),
            None => None,
        }
    }
}

/// Parsing an escaped string, a closing quote and a remainder yields the
/// original text and that remainder.
pub proof fn lemma_parse_escape(s: Seq<char>, rest: Seq<char>)
    ensures
        spec_parse_jstring_body(spec_escape(s) + seq!['"'] + rest) == Some(
            (s, rest),
        ),
    decreases s.len(),
{
    let input = spec_escape(s) + seq!['"'] + rest;
    if s.len() == 0 {
        assert(input =~= seq!['"'] + rest);
        assert(input[0] == '"');
        assert(input.skip(1) =~= rest);
    } else {
        let c = s[0];
        let e = spec_escape_char(c);
        assert(spec_escape(s) == e + spec_escape(s.skip(1)));
        let inner = spec_escape(s.skip(1)) + seq!['"'] + rest;
        lemma_parse_escape(s.skip(1), rest);
        assert(input =~= e + inner);
        if c == '"' || c == '\\' || c == '\n' || c == '\r' || c == '\t' {
            assert(input[0] == '\\');
            assert(input.skip(2) =~= inner);
            assert(seq![c] + s.skip(1) =~= s);
        } else if (c as int) < 0x20 {
            assert(input[0] == '\\');
            assert(input[1] == 'u');
            assert(input[2] == '0');
            assert(input[3] == '0');
            assert(input[4] == spec_hex_digit_char((c as int) / 16));
            assert(input[5] == spec_hex_digit_char((c as int) % 16));
            lemma_char_bounds(c);
            assert(0 <= (c as int) && (c as int) < 0x20);
            vstd::arithmetic::div_mod::lemma_mod_bound(c as int, 16);
            assert(0 <= (c as int) / 16 < 2) by {
                vstd::arithmetic::div_mod::lemma_fundamental_div_mod(c as int, 16);
                vstd::arithmetic::div_mod::lemma_mod_bound(c as int, 16);
            }
            lemma_hex_digit_roundtrip((c as int) / 16);
            lemma_hex_digit_roundtrip((c as int) % 16);
            vstd::arithmetic::div_mod::lemma_fundamental_div_mod(c as int, 16);
            assert(16 * spec_hex_val(input[4]) + spec_hex_val(input[5]) == c as int);
            assert(input.skip(6) =~= inner);
            assert((c as int) as char == c);
            assert(seq![c] + s.skip(1) =~= s);
        } else {
            assert(input[0] == c);
            assert(input[0] != '"' && input[0] != '\\');
            assert(input.skip(1) =~= inner);
            assert(seq![c] + s.skip(1) =~= s);
        }
    }
}

/// Every character's code point is a valid Unicode scalar value.
pub proof fn lemma_char_bounds(c: char)
    ensures
        0 <= c as int <= 0x10FFFF,
{
}

/// A hexadecimal digit character reads back as its value.
pub proof fn lemma_hex_digit_roundtrip(d: int)
    requires
        0 <= d < 16,
    ensures
        spec_is_hex_digit(spec_hex_digit_char(d)),
        spec_hex_val(spec_hex_digit_char(d)) == d,
{
}

} // verus!
