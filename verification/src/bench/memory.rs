//! Reading a process's resident memory from what `ps -o rss=` printed.

use vstd::prelude::*;
use crate::dns::server::{spec_utf8_lossy, utf8_lossy};
use crate::text::{chars_of, is_ascii_digit, owned, string_append, trim, trimmed};

verus! {

/// `ParseIntError`'s text for an empty string.
pub open spec fn empty_error() -> Seq<char> {
    "cannot parse integer from empty string"@
}

/// `ParseIntError`'s text for a character that is no digit.
pub open spec fn invalid_digit_error() -> Seq<char> {
    "invalid digit found in string"@
}

/// `ParseIntError`'s text for a value above `u64::MAX`.
pub open spec fn overflow_error() -> Seq<char> {
    "number too large to fit in target type"@
}

/// The value of a digit character.
pub open spec fn digit_value(c: char) -> nat {
    ((c as u32) - 48) as nat
}

/// Reads the digits `d` after the value `acc` read so far, left to right:
/// a character that is no digit is an error, and so is a value that grows
/// past `u64::MAX` (whichever comes first).
pub open spec fn scan_u64(d: Seq<char>, acc: nat) -> Result<nat, Seq<char>>
    decreases d.len(),
{
    if d.len() == 0 {
        Ok(acc)
    } else if !is_ascii_digit(d[0]) {
        Err(invalid_digit_error())
    } else if acc * 10 + digit_value(d[0]) > u64::MAX {
        Err(overflow_error())
    } else {
        scan_u64(d.drop_first(), acc * 10 + digit_value(d[0]))
    }
}

/// `u64::from_str`: an optional leading `+`, then decimal digits whose value
/// fits in 64 bits; otherwise the text of the error.
pub open spec fn spec_parse_u64(s: Seq<char>) -> Result<nat, Seq<char>> {
    if s.len() == 0 {
        Err(empty_error())
    } else if s.len() == 1 && (s[0] == '+' || s[0] == '-') {
        Err(invalid_digit_error())
    } else if s[0] == '+' {
        scan_u64(s.drop_first(), 0)
    } else {
        scan_u64(s, 0)
    }
}

/// Reads a decimal `u64` as `str::parse::<u64>` does.
fn parse_u64(s: &str) -> (r: Result<u64, String>)
    ensures
        match spec_parse_u64(s@) {
            Ok(v) => r == Ok::<u64, String>(v as u64),
            Err(e) => (r matches Err(m) && m@ == e),
        },
{
    let cs = chars_of(s);
    if cs.len() == 0 {
        return Err(owned("cannot parse integer from empty string"));
    }
    if cs.len() == 1 && (cs[0] == '+' || cs[0] == '-') {
        return Err(owned("invalid digit found in string"));
    }
    let start: usize = if cs[0] == '+' {
        1
    } else {
        0
    };
    let ghost d = cs@.skip(start as int);
    proof {
        if start == 1 {
            assert(d =~= s@.drop_first());
        } else {
            assert(d =~= s@);
        }
        assert(spec_parse_u64(s@) == scan_u64(d, 0));
    }
    let mut acc: u64 = 0;
    let mut i: usize = start;
    while i < cs.len()
        invariant
            start <= i <= cs@.len(),
            d == cs@.skip(start as int),
            spec_parse_u64(s@) == scan_u64(d, 0),
            scan_u64(d, 0) == scan_u64(cs@.skip(i as int), acc as nat),
        decreases cs.len() - i,
    {
        let c = cs[i];
        let ghost rest = cs@.skip(i as int);
        assert(rest[0] == c);
        assert(rest.drop_first() =~= cs@.skip(i + 1));
        if !('0' <= c && c <= '9') {
            return Err(owned("invalid digit found in string"));
        }
        let dig: u64 = (c as u32 - 48) as u64;
        assert(dig as nat == digit_value(c));
        if acc > (u64::MAX - dig) / 10 {
            assert(acc * 10 + dig > u64::MAX) by (nonlinear_arith)
                requires
                    acc > (u64::MAX - dig) / 10,
                    dig <= 9,
            ;
            return Err(owned("number too large to fit in target type"));
        }
        assert(acc * 10 + dig <= u64::MAX) by (nonlinear_arith)
            requires
                acc <= (u64::MAX - dig) / 10,
                dig <= 9,
        ;
        acc = acc * 10 + dig;
        i = i + 1;
    }
    assert(cs@.skip(i as int).len() == 0);
    Ok(acc)
}

/// The kilobytes that `ps -o rss=` printed: its output as text, trimmed,
/// read as a number.
pub open spec fn spec_rss_kb(stdout: Seq<u8>) -> Result<nat, Seq<char>> {
    match spec_parse_u64(trim(spec_utf8_lossy(stdout))) {
        Ok(v) => Ok(v),
        Err(e) => Err("parse RSS: "@ + e),
    }
}

/// Reads the resident set size in kilobytes from what `ps -o rss=` printed.
pub fn parse_rss_kb(stdout: &[u8]) -> (r: Result<u64, String>)
    ensures
        match spec_rss_kb(stdout@) {
            Ok(v) => r == Ok::<u64, String>(v as u64),
            Err(e) => (r matches Err(m) && m@ == e),
        },
{
    let text = utf8_lossy(stdout);
    let t = trimmed(text.as_str());
    match parse_u64(t.as_str()) {
        Ok(v) => Ok(v),
        Err(e) => {
            let mut m = owned("parse RSS: ");
            string_append(&mut m, e.as_str());
            Err(m)
        },
    }
}

/// Kilobytes as bytes.
pub fn rss_bytes(kb: u64) -> (r: u64)
    requires
        kb * 1024 <= u64::MAX,
    ensures
        r == kb * 1024,
{
    kb * 1024
}

} // verus!
