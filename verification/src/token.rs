//! Shape-checking the session token a signup hands over: three
//! dot-separated parts whose middle part is URL-safe base64 without
//! padding.

use crate::strutil::{lemma_split_sep_append, lemma_split_sep_len, lemma_split_sep_none, split_sep};
use base64::Engine;
use vstd::prelude::*;

verus! {

/// Whether the URL-safe, no-padding base64 decoder accepts the string.
pub uninterp spec fn urlsafe_b64_accepted(s: Seq<char>) -> bool;

/// Relies on base64's GeneralPurpose engine built from the URL_SAFE
/// alphabet and the NO_PAD config: whether decoding the string succeeds,
/// which depends on the string alone.
#[verifier::external_body]
fn urlsafe_b64_decodes(s: &str) -> (r: bool)
    ensures
        r == urlsafe_b64_accepted(s@),
{
    base64::engine::GeneralPurpose::new(
        &base64::alphabet::URL_SAFE,
        base64::engine::general_purpose::NO_PAD,
    ).decode(s).is_ok()
}

/// A well-shaped session token: exactly three dot-separated parts, the
/// middle one valid URL-safe base64 without padding.
pub open spec fn spec_token_ok(t: Seq<char>) -> bool {
    split_sep(t, '.').len() == 3 && urlsafe_b64_accepted(split_sep(t, '.')[1])
}

/// The index of the first `c` at or after `from`, if any.
fn find_char(s: &str, from: usize, c: char) -> (r: Option<usize>)
    requires
        from <= s@.len(),
    ensures
        match r {
            Some(k) => from <= k < s@.len() && s@[k as int] == c && forall|j: int|
                from <= j < k ==> s@[j] != c,
            None => forall|j: int| from <= j < s@.len() ==> s@[j] != c,
        },
{
    let n = s.unicode_len();
    let mut k: usize = from;
    while k < n && s.get_char(k) != c
        invariant
            from <= k <= n,
            n == s@.len(),
            forall|j: int| from <= j < k ==> s@[j] != c,
        decreases n - k,
    {
        k = k + 1;
    }
    if k == n {
        None
    } else {
        Some(k)
    }
}

/// Checks a session token's shape: it must split on dots into exactly
/// three parts, and the middle part must be URL-safe base64 without
/// padding.
pub fn validate_token(token: &str) -> (r: bool)
    ensures
        r == spec_token_ok(token@),
{
    let t = token;
    let ghost tv = token@;
    let n = t.unicode_len();
    let k1 = match find_char(t, 0, '.') {
        Some(k) => k,
        None => {
            proof {
                lemma_split_sep_none(tv, '.');
            }
            return false;
        },
    };
    let k2 = match find_char(t, k1 + 1, '.') {
        Some(k) => k,
        None => {
            proof {
                lemma_first_dot_split(tv, k1 as int);
                lemma_split_sep_none(tv.skip(k1 as int + 1), '.');
            }
            return false;
        },
    };
    proof {
        lemma_first_dot_split(tv, k1 as int);
        assert(tv.skip(k1 as int + 1)[k2 - k1 - 1] == '.');
        assert(forall|j: int|
            0 <= j < k2 - k1 - 1 ==> #[trigger] tv.skip(k1 as int + 1)[j] != '.');
        lemma_first_dot_split(tv.skip(k1 as int + 1), k2 - k1 - 1);
        assert(tv.skip(k1 as int + 1).skip(k2 - k1) =~= tv.skip(k2 as int + 1));
    }
    match find_char(t, k2 + 1, '.') {
        Some(k3) => {
            proof {
                let tail = tv.skip(k2 as int + 1);
                assert(tail[k3 - k2 - 1] == '.');
                lemma_first_dot_split(tail, k3 - k2 - 1);
                lemma_split_sep_len(tail.skip(k3 - k2), '.');
            }
            false
        },
        None => {
            proof {
                lemma_split_sep_none(tv.skip(k2 as int + 1), '.');
                assert(split_sep(tv, '.').len() == 3);
                assert(split_sep(tv, '.')[1] =~= tv.skip(k1 as int + 1).take(k2 - k1 - 1));
                assert(tv.skip(k1 as int + 1).take(k2 - k1 - 1) =~= tv.subrange(
                    k1 as int + 1,
                    k2 as int,
                ));
            }
            let mid = t.substring_char(k1 + 1, k2);
            urlsafe_b64_decodes(mid)
        },
    }
}

/// Splitting at the first separator: everything before it is one piece,
/// and the rest splits on its own.
proof fn lemma_first_dot_split(s: Seq<char>, k: int)
    requires
        0 <= k < s.len(),
        s[k] == '.',
        forall|j: int| 0 <= j < k ==> s[j] != '.',
    ensures
        split_sep(s, '.') == seq![s.take(k)] + split_sep(s.skip(k + 1), '.'),
{
    assert(s =~= s.take(k) + seq!['.'] + s.skip(k + 1));
    lemma_split_sep_append(s.take(k), s.skip(k + 1), '.');
    lemma_split_sep_none(s.take(k), '.');
}

} // verus!
