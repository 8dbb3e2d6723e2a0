//! Version-byte rendering and firmware-name decoding.
//!
//! Version bytes are rendered as octal digit text (a byte value of 8 renders
//! as `"10"`): this matches the device convention and is protocol-visible to
//! other tooling, so it is preserved exactly.

use vstd::prelude::*;
use vstd::string::StringExecFns;
use vstd::utf8::decode_utf8;
use vstd::utf8::valid_utf8;

verus! {

/// The character for one octal digit.
pub open spec fn octal_digit_char(d: u8) -> char
    recommends
        d < 8,
{
    if d == 0 {
        '0'
    } else if d == 1 {
        '1'
    } else if d == 2 {
        '2'
    } else if d == 3 {
        '3'
    } else if d == 4 {
        '4'
    } else if d == 5 {
        '5'
    } else if d == 6 {
        '6'
    } else {
        '7'
    }
}

/// The octal rendering of a byte, without leading zeros.
pub open spec fn octal_text(b: u8) -> Seq<char> {
    if b < 8 {
        seq![octal_digit_char(b)]
    } else if b < 64 {
        seq![octal_digit_char(b / 8), octal_digit_char(b % 8)]
    } else {
        seq![octal_digit_char(b / 64), octal_digit_char((b / 8) % 8), octal_digit_char(b % 8)]
    }
}

/// The text `<major>.<minor>` with both bytes rendered in octal.
pub open spec fn version_text(major: u8, minor: u8) -> Seq<char> {
    octal_text(major) + seq!['.'] + octal_text(minor)
}

/// The one-character string for an octal digit.
fn octal_digit_str(d: u8) -> (s: &'static str)
    requires
        d < 8,
    ensures
        s@ == seq![octal_digit_char(d)],
{
    proof {
        reveal_strlit("0");
        reveal_strlit("1");
        reveal_strlit("2");
        reveal_strlit("3");
        reveal_strlit("4");
        reveal_strlit("5");
        reveal_strlit("6");
        reveal_strlit("7");
    }
    let s: &'static str = if d == 0 {
        "0"
    } else if d == 1 {
        "1"
    } else if d == 2 {
        "2"
    } else if d == 3 {
        "3"
    } else if d == 4 {
        "4"
    } else if d == 5 {
        "5"
    } else if d == 6 {
        "6"
    } else {
        "7"
    };
    proof {
        assert(s@ =~= seq![octal_digit_char(d)]);
    }
    s
}

/// Append the octal rendering of `b` to `s`.
fn push_octal(s: &mut String, b: u8)
    ensures
        final(s)@ == old(s)@ + octal_text(b),
{
    let ghost s0 = s@;
    if b >= 64 {
        s.append(octal_digit_str(b / 64));
    }
    if b >= 8 {
        s.append(octal_digit_str((b / 8) % 8));
    }
    s.append(octal_digit_str(b % 8));
    proof {
        assert(s@ =~= s0 + octal_text(b));
    }
}

/// The version string for a major/minor byte pair, in octal.
pub fn version_string(major: u8, minor: u8) -> (s: String)
    ensures
        s@ == version_text(major, minor),
{
    let mut s = String::new();
    push_octal(&mut s, major);
    proof {
        reveal_strlit(".");
    }
    s.append(".");
    push_octal(&mut s, minor);
    proof {
        assert(s@ =~= version_text(major, minor));
    }
    s
}

/// Relies on std::str::from_utf8: it succeeds exactly on valid UTF-8 input,
/// and then yields the character sequence that the bytes encode.
#[verifier::external_body]
pub(crate) fn utf8_to_string(bytes: &[u8]) -> (r: Option<String>)
    ensures
        r is Some <==> valid_utf8(bytes@),
        r matches Some(s) ==> s@ == decode_utf8(bytes@),
{
    match std::str::from_utf8(bytes) {
        Ok(s) => Some(s.to_string()),
        Err(_) => None,
    }
}

} // verus!
