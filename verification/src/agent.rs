//! Browser user-agent strings assembled from randomly drawn parts, so
//! that outgoing requests do not all look alike.

use crate::jsontext::{push_u64, spec_dec_digits};
use vstd::prelude::*;

verus! {

/// Relies on rand::random_range over `0..n`: a uniformly drawn value
/// below `n`; the range must not be empty.
#[verifier::external_body]
fn rand_below(n: u32) -> (r: u32)
    requires
        n > 0,
    ensures
        r < n,
{
    rand::random_range(0..n)
}

/// The browser name for each index.
pub open spec fn spec_browser_name(b: int) -> Seq<char> {
    if b == 0 {
        "Chrome"@
    } else if b == 1 {
        "Firefox"@
    } else if b == 2 {
        "Safari"@
    } else if b == 3 {
        "Edge"@
    } else {
        "Opera"@
    }
}

/// The platform fragment for each index.
pub open spec fn spec_os_name(o: int) -> Seq<char> {
    if o == 0 {
        "Windows NT 10.0"@
    } else if o == 1 {
        "Macintosh; Intel Mac OS X 10_15_7"@
    } else if o == 2 {
        "Linux; Android 10"@
    } else {
        "iPhone; CPU iPhone OS 14_0 like Mac OS X"@
    }
}

/// The engine fragment for each index.
pub open spec fn spec_engine_name(e: int) -> Seq<char> {
    if e == 0 {
        "AppleWebKit/537.36"@
    } else if e == 1 {
        "Gecko/20100101"@
    } else {
        "KHTML, like Gecko"@
    }
}

/// The version text of each browser family: three drawn numbers for the
/// four-part families, one for the two-part one.
pub open spec fn spec_browser_version(b: int, x: nat, y: nat, z: nat) -> Seq<char> {
    if b == 1 {
        spec_dec_digits(x) + ".0"@
    } else if b == 2 {
        spec_dec_digits(x) + "."@ + spec_dec_digits(y) + "."@ + spec_dec_digits(z)
    } else {
        spec_dec_digits(x) + ".0."@ + spec_dec_digits(y) + "."@ + spec_dec_digits(z)
    }
}

/// A whole user-agent line from its drawn parts.
pub open spec fn spec_user_agent(b: int, o: int, e: int, x: nat, y: nat, z: nat) -> Seq<char> {
    spec_browser_name(b) + " ("@ + spec_os_name(o) + "; "@ + spec_engine_name(e) + ") "@
        + spec_browser_version(b, x, y, z) + " Safari/537.36"@
}

/// Whether a string is one of the user-agent lines this module can
/// assemble, with every drawn part in its family's range.
pub open spec fn spec_is_user_agent(s: Seq<char>) -> bool {
    exists|b: int, o: int, e: int, x: nat, y: nat, z: nat|
        0 <= b < 5 && 0 <= o < 4 && 0 <= e < 3 && s == #[trigger] spec_user_agent(b, o, e, x, y, z)
}

/// Assembles the user-agent line for the given drawn parts.
#[verifier::rlimit(100)]
fn compose_user_agent(b: u32, o: u32, e: u32, x: u32, y: u32, z: u32) -> (r: String)
    requires
        b < 5,
        o < 4,
        e < 3,
    ensures
        r@ == spec_user_agent(b as int, o as int, e as int, x as nat, y as nat, z as nat),
{
    let mut r = String::new();
    match b {
        0 => r.append("Chrome"),
        1 => r.append("Firefox"),
        2 => r.append("Safari"),
        3 => r.append("Edge"),
        _ => r.append("Opera"),
    }
    r.append(" (");
    match o {
        0 => r.append("Windows NT 10.0"),
        1 => r.append("Macintosh; Intel Mac OS X 10_15_7"),
        2 => r.append("Linux; Android 10"),
        _ => r.append("iPhone; CPU iPhone OS 14_0 like Mac OS X"),
    }
    r.append("; ");
    match e {
        0 => r.append("AppleWebKit/537.36"),
        1 => r.append("Gecko/20100101"),
        _ => r.append("KHTML, like Gecko"),
    }
    r.append(") ");
    if b == 1 {
        push_u64(&mut r, x as u64);
        r.append(".0");
    } else if b == 2 {
        push_u64(&mut r, x as u64);
        r.append(".");
        push_u64(&mut r, y as u64);
        r.append(".");
        push_u64(&mut r, z as u64);
    } else {
        push_u64(&mut r, x as u64);
        r.append(".0.");
        push_u64(&mut r, y as u64);
        r.append(".");
        push_u64(&mut r, z as u64);
    }
    r.append(" Safari/537.36");
    proof {
        assert(r@ =~= spec_user_agent(
            b as int,
            o as int,
            e as int,
            x as nat,
            y as nat,
            z as nat,
        ));
    }
    r
}

/// Draws a browser, platform, engine and version numbers and assembles
/// the user-agent line; each call may give a different one, but every
/// result has the assembled shape.
pub fn random_user_agent() -> (r: String)
    ensures
        spec_is_user_agent(r@),
{
    let b = rand_below(5);
    let o = rand_below(4);
    let e = rand_below(3);
    let (x, y, z) = if b == 0 {
        (70 + rand_below(20), 3000 + rand_below(1000), 100 + rand_below(50))
    } else if b == 1 {
        (70 + rand_below(20), 0, 0)
    } else if b == 2 {
        (13 + rand_below(2), 1 + rand_below(4), 1 + rand_below(9))
    } else if b == 3 {
        (90 + rand_below(10), 800 + rand_below(100), 50 + rand_below(50))
    } else {
        (60 + rand_below(20), 3000 + rand_below(1000), 100 + rand_below(50))
    };
    let r = compose_user_agent(b, o, e, x, y, z);
    proof {
        assert(r@ == spec_user_agent(
            b as int,
            o as int,
            e as int,
            x as nat,
            y as nat,
            z as nat,
        ));
    }
    r
}

} // verus!
