//! The textual building blocks of the JSON the exporter writes and reads
//! back: decimal numbers and escaped strings, each with its serializer,
//! its parser, and the proof that parsing undoes serialising.

use vstd::arithmetic::div_mod::lemma_fundamental_div_mod;
use vstd::prelude::*;

verus! {

/// The decimal digit character for a value below ten.
pub open spec fn spec_digit_char(d: int) -> char {
    if d == 0 {
        '0'
    } else if d == 1 {
        '1'
    } else if d == 2 {
        '2'
    } else if d == 3 {
        '3'
    } else if d == 4 {
        '4'
    } else if d == 5 {
        '5'
    } else if d == 6 {
        '6'
    } else if d == 7 {
        '7'
    } else if d == 8 {
        '8'
    } else {
        '9'
    }
}

/// The decimal digits of a natural number, most significant first.
pub open spec fn spec_dec_digits(n: nat) -> Seq<char>
    decreases n,
{
    if n < 10 {
        seq![spec_digit_char(n as int)]
    } else {
        spec_dec_digits(n / 10) + seq![spec_digit_char((n % 10) as int)]
    }
}

/// The decimal form of a signed number: a minus sign before the digits
/// of its magnitude when negative.
pub open spec fn spec_i64_digits(n: int) -> Seq<char> {
    if n < 0 {
        seq!['-'] + spec_dec_digits((-n) as nat)
    } else {
        spec_dec_digits(n as nat)
    }
}

/// Whether a character is a decimal digit.
pub open spec fn spec_is_digit(c: char) -> bool {
    '0' <= c <= '9'
}

/// The numeric value of a digit character.
pub open spec fn spec_digit_val(c: char) -> int {
    c as int - '0' as int
}

/// One decimal digit as a string slice.
pub(crate) fn digit_str(d: u64) -> (r: &'static str)
    requires
        d < 10,
    ensures
        r@ == seq![spec_digit_char(d as int)],
{
    proof {
        reveal_strlit("0");
        reveal_strlit("1");
        reveal_strlit("2");
        reveal_strlit("3");
        reveal_strlit("4");
        reveal_strlit("5");
        reveal_strlit("6");
        reveal_strlit("7");
        reveal_strlit("8");
        reveal_strlit("9");
    }
    let r = match d {
        0 => "0",
        1 => "1",
        2 => "2",
        3 => "3",
        4 => "4",
        5 => "5",
        6 => "6",
        7 => "7",
        8 => "8",
        _ => "9",
    };
    proof {
        assert(r@ =~= seq![spec_digit_char(d as int)]);
    }
    r
}

/// Appends the decimal digits of `n`.
pub fn push_u64(out: &mut String, n: u64)
    ensures
        final(out)@ == old(out)@ + spec_dec_digits(n as nat),
    decreases n,
{
    if n < 10 {
        out.append(digit_str(n));
        proof {
            assert(final(out)@ =~= old(out)@ + spec_dec_digits(n as nat));
        }
    } else {
        push_u64(out, n / 10);
        out.append(digit_str(n % 10));
        proof {
            assert(final(out)@ =~= old(out)@ + spec_dec_digits(n as nat));
        }
    }
}

/// Appends the decimal form of `n`, minus sign included when negative.
pub fn push_i64(out: &mut String, n: i64)
    ensures
        final(out)@ == old(out)@ + spec_i64_digits(n as int),
{
    proof {
        reveal_strlit("-");
    }
    if n >= 0 {
        push_u64(out, n as u64);
    } else {
        out.append("-");
        let m: u64 = if n == i64::MIN {
            9223372036854775808u64
        } else {
            (-n) as u64
        };
        push_u64(out, m);
        proof {
            assert("-"@ =~= seq!['-']);
            assert(final(out)@ =~= old(out)@ + spec_i64_digits(n as int));
        }
    }
}

/// Left-to-right accumulation of digit characters onto `acc`.
pub open spec fn spec_digits_fold(ds: Seq<char>, acc: nat) -> nat
    decreases ds.len(),
{
    if ds.len() == 0 {
        acc
    } else {
        spec_digits_fold(ds.skip(1), (acc * 10 + spec_digit_val(ds[0])) as nat)
    }
}

/// The longest digit prefix of the input, folded onto `acc`, and what
/// follows it.
pub open spec fn spec_parse_digits(input: Seq<char>, acc: nat) -> (nat, Seq<char>)
    decreases input.len(),
{
    if input.len() > 0 && spec_is_digit(input[0]) {
        spec_parse_digits(input.skip(1), (acc * 10 + spec_digit_val(input[0])) as nat)
    } else {
        (acc, input)
    }
}

/// Every character of a number's decimal form is a digit, and there is
/// at least one.
pub proof fn lemma_dec_digits_are_digits(n: nat)
    ensures
        spec_dec_digits(n).len() >= 1,
        forall|i: int|
            0 <= i < spec_dec_digits(n).len() ==> spec_is_digit(#[trigger] spec_dec_digits(n)[i]),
    decreases n,
{
    if n < 10 {
    } else {
        lemma_dec_digits_are_digits(n / 10);
        assert forall|i: int|
            0 <= i < spec_dec_digits(n).len() implies spec_is_digit(
            #[trigger] spec_dec_digits(n)[i],
        ) by {
            if i < spec_dec_digits(n / 10).len() {
                assert(spec_dec_digits(n)[i] == spec_dec_digits(n / 10)[i]);
            }
        }
    }
}

/// Parsing stops exactly where the digits end.
pub proof fn lemma_parse_digits_span(ds: Seq<char>, rest: Seq<char>, acc: nat)
    requires
        forall|i: int| 0 <= i < ds.len() ==> spec_is_digit(#[trigger] ds[i]),
        rest.len() == 0 || !spec_is_digit(rest[0]),
    ensures
        spec_parse_digits(ds + rest, acc) == (spec_digits_fold(ds, acc), rest),
    decreases ds.len(),
{
    if ds.len() == 0 {
        assert(ds + rest =~= rest);
    } else {
        assert((ds + rest)[0] == ds[0]);
        assert((ds + rest).skip(1) =~= ds.skip(1) + rest);
        lemma_parse_digits_span(ds.skip(1), rest, (acc * 10 + spec_digit_val(ds[0])) as nat);
    }
}

/// Folding one more digit multiplies the accumulated value by ten.
pub proof fn lemma_fold_snoc(ds: Seq<char>, d: char, acc: nat)
    requires
        forall|i: int| 0 <= i < ds.len() ==> spec_is_digit(#[trigger] ds[i]),
        spec_is_digit(d),
    ensures
        spec_digits_fold(ds.push(d), acc) == spec_digits_fold(ds, acc) * 10 + spec_digit_val(d),
    decreases ds.len(),
{
    if ds.len() == 0 {
        assert(ds.push(d)[0] == d);
        assert(ds.push(d).skip(1) =~= Seq::<char>::empty());
        assert(spec_digits_fold(ds.push(d), acc) == spec_digits_fold(
            Seq::<char>::empty(),
            (acc * 10 + spec_digit_val(d)) as nat,
        ));
        assert(spec_digits_fold(Seq::<char>::empty(), (acc * 10 + spec_digit_val(d)) as nat) == (
        acc * 10 + spec_digit_val(d)) as nat);
        assert(spec_digits_fold(ds, acc) == acc);
    } else {
        assert(ds.push(d)[0] == ds[0]);
        assert(ds.push(d).skip(1) =~= ds.skip(1).push(d));
        let acc2 = (acc * 10 + spec_digit_val(ds[0])) as nat;
        lemma_fold_snoc(ds.skip(1), d, acc2);
        assert(spec_digits_fold(ds.push(d), acc) == spec_digits_fold(ds.skip(1).push(d), acc2));
        assert(spec_digits_fold(ds, acc) == spec_digits_fold(ds.skip(1), acc2));
    }
}

/// Folding a number's own digits recovers the number.
pub proof fn lemma_fold_digits(n: nat)
    ensures
        spec_digits_fold(spec_dec_digits(n), 0) == n,
    decreases n,
{
    if n < 10 {
        assert(spec_dec_digits(n) == seq![spec_digit_char(n as int)]);
        assert(spec_dec_digits(n).skip(1) =~= Seq::<char>::empty());
        assert(spec_digits_fold(spec_dec_digits(n), 0) == spec_digits_fold(
            spec_dec_digits(n).skip(1),
            (0 * 10 + spec_digit_val(spec_digit_char(n as int))) as nat,
        ));
        assert(spec_digit_val(spec_digit_char(n as int)) == n);
    } else {
        lemma_fold_digits(n / 10);
        lemma_dec_digits_are_digits(n / 10);
        let d = spec_digit_char((n % 10) as int);
        assert(spec_dec_digits(n) =~= spec_dec_digits(n / 10).push(d));
        lemma_fold_snoc(spec_dec_digits(n / 10), d, 0);
        assert(spec_is_digit(d) && spec_digit_val(d) == n % 10);
        assert(spec_digits_fold(spec_dec_digits(n), 0) == spec_digits_fold(
            spec_dec_digits(n / 10),
            0,
        ) * 10 + spec_digit_val(d));
        assert((n / 10) * 10 + n % 10 == n) by {
            lemma_fundamental_div_mod(n as int, 10);
        }
    }
}

/// Parsing the decimal form of a number, followed by anything that is
/// not a digit, yields the number and leaves that remainder.
pub proof fn lemma_parse_dec_digits(n: nat, rest: Seq<char>)
    requires
        rest.len() == 0 || !spec_is_digit(rest[0]),
    ensures
        spec_parse_digits(spec_dec_digits(n) + rest, 0) == (n, rest),
{
    lemma_dec_digits_are_digits(n);
    lemma_parse_digits_span(spec_dec_digits(n), rest, 0);
    lemma_fold_digits(n);
}

/// Reads the longest run of digits at `pos`, reporting the value and the
/// position after it; nothing if `pos` holds no digit or the value
/// exceeds `u64::MAX`.
pub fn parse_u64_at(v: &Vec<char>, pos: usize) -> (r: Option<(u64, usize)>)
    requires
        pos <= v@.len(),
    ensures
        match r {
            Some((value, end)) => {
                &&& pos <= end <= v@.len()
                &&& pos < v@.len() && spec_is_digit(v@[pos as int])
                &&& spec_parse_digits(v@.skip(pos as int), 0) == (
                    value as nat,
                    v@.skip(end as int),
                )
            },
            None => spec_parse_digits(v@.skip(pos as int), 0).0 > u64::MAX || pos == v@.len()
                || !spec_is_digit(v@[pos as int]),
        },
{
    let n = v.len();
    if pos == n {
        return None;
    }
    let c0 = v[pos];
    if !(c0 >= '0' && c0 <= '9') {
        return None;
    }
    let mut acc: u64 = 0;
    let mut i: usize = pos;
    while i < n && v[i] >= '0' && v[i] <= '9'
        invariant
            pos <= i <= n,
            n == v@.len(),
            spec_parse_digits(v@.skip(pos as int), 0) == spec_parse_digits(
                v@.skip(i as int),
                acc as nat,
            ),
        decreases n - i,
    {
        let c = v[i];
        let d: u64 = (c as u32 as u64) - ('0' as u32 as u64);
        proof {
            assert(spec_is_digit(v@.skip(i as int)[0]));
        }
        if acc > (u64::MAX - d) / 10 {
            // The number would overflow; report the failure.
            proof {
                let before = v@.skip(i as int);
                assert(before[0] == v@[i as int]);
                assert(spec_digit_val(before[0]) == d);
                lemma_fundamental_div_mod(u64::MAX - d, 10);
                assert(acc * 10 + d > u64::MAX);
                assert(before.skip(1) =~= v@.skip(i as int + 1));
                lemma_parse_digits_lower_bound(before.skip(1), (acc * 10 + d) as nat);
                assert(spec_parse_digits(before, acc as nat).0 > u64::MAX);
            }
            return None;
        }
        let ghost before = v@.skip(i as int);
        acc = acc * 10 + d;
        proof {
            assert(before.skip(1) =~= v@.skip(i as int + 1));
            assert(spec_digit_val(before[0]) == d);
        }
        i = i + 1;
    }
    proof {
        if i < n {
            assert(!spec_is_digit(v@.skip(i as int)[0]));
        }
    }
    Some((acc, i))
}

/// What a digit run folds to never shrinks below the accumulator it
/// started from.
pub proof fn lemma_parse_digits_lower_bound(input: Seq<char>, acc: nat)
    ensures
        spec_parse_digits(input, acc).0 >= acc,
    decreases input.len(),
{
    if input.len() > 0 && spec_is_digit(input[0]) {
        lemma_parse_digits_lower_bound(
            input.skip(1),
            (acc * 10 + spec_digit_val(input[0])) as nat,
        );
    }
}

} // verus!
