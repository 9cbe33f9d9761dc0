//! Entity tags for served content.
//!
//! An entity tag is the decimal xxh3 digest of the content, in quotes.

use vstd::prelude::*;

verus! {

use vstd::string::StringExecFns;
use crate::hashing::{hash_bytes, xxh3_digest};

/// The digit character of one decimal digit.
pub open spec fn decimal_digit(d: nat) -> char {
    if d == 0 {
        '0'
    } else if d == 1 {
        '1'
    } else if d == 2 {
        '2'
    } else if d == 3 {
        '3'
    } else if d == 4 {
        '4'
    } else if d == 5 {
        '5'
    } else if d == 6 {
        '6'
    } else if d == 7 {
        '7'
    } else if d == 8 {
        '8'
    } else {
        '9'
    }
}

/// The decimal numeral of a number, most significant digit first, without
/// leading zeroes.
pub open spec fn decimal_chars(n: nat) -> Seq<char>
    decreases n,
{
    if n < 10 {
        seq![decimal_digit(n)]
    } else {
        decimal_chars(n / 10).push(decimal_digit(n % 10))
    }
}

/// One decimal digit as a string.
fn digit_str(d: u64) -> (r: &'static str)
    requires
        d < 10,
    ensures
        r@ == seq![decimal_digit(d as nat)],
{
    proof {
        reveal_strlit("0");
        reveal_strlit("1");
        reveal_strlit("2");
        reveal_strlit("3");
        reveal_strlit("4");
        reveal_strlit("5");
        reveal_strlit("6");
        reveal_strlit("7");
        reveal_strlit("8");
        reveal_strlit("9");
    }
    let r = match d {
        0 => "0",
        1 => "1",
        2 => "2",
        3 => "3",
        4 => "4",
        5 => "5",
        6 => "6",
        7 => "7",
        8 => "8",
        _ => "9",
    };
    proof {
        assert(r@ =~= seq![decimal_digit(d as nat)]);
    }
    r
}

/// Format a number in decimal.
pub fn u64_to_decimal(n: u64) -> (r: String)
    ensures
        r@ == decimal_chars(n as nat),
    decreases n,
{
    if n < 10 {
        String::from_str(digit_str(n))
    } else {
        let mut s = u64_to_decimal(n / 10);
        s.append(digit_str(n % 10));
        proof {
            assert(decimal_chars((n / 10) as nat) + seq![decimal_digit((n % 10) as nat)]
                =~= decimal_chars((n / 10) as nat).push(decimal_digit((n % 10) as nat)));
        }
        s
    }
}

/// The entity tag of a piece of content: its digest in decimal, quoted.
pub open spec fn etag_chars(bytes: Seq<u8>) -> Seq<char> {
    seq!['"'] + decimal_chars(xxh3_digest(bytes) as nat) + seq!['"']
}

/// Compute the entity tag of served content.
pub fn etag_hash(content: &Vec<u8>) -> (r: String)
    ensures
        r@ == etag_chars(content@),
{
    let h = hash_bytes(content.as_slice());
    let mut s = String::from_str("\"");
    let digits = u64_to_decimal(h);
    s.append(digits.as_str());
    s.append("\"");
    proof {
        reveal_strlit("\"");
        assert("\""@ =~= seq!['"']);
        assert(("\""@ + decimal_chars(h as nat)) + "\""@ =~= etag_chars(content@));
    }
    s
}

} // verus!
