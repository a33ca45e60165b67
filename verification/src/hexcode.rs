//! Hexadecimal payload codec. A payload token is a sequence of hex digit
//! pairs; decoding maps each pair to one byte and fails on an odd length or
//! on any non-digit character. Encoding (lower case) is specified as well so
//! that the decoder can be proved to invert it.

use vstd::prelude::*;
use crate::text::is_ws_char;

verus! {

/// True for the ASCII hexadecimal digits, upper or lower case.
pub open spec fn is_hex_digit(c: char) -> bool {
    let u = c as u32;
    (0x30 <= u && u <= 0x39) || (0x61 <= u && u <= 0x66) || (0x41 <= u && u <= 0x46)
}

/// The numeric value of a hex digit.
pub open spec fn hex_val(c: char) -> u8
    recommends
        is_hex_digit(c),
{
    let u = c as u32;
    if 0x30 <= u && u <= 0x39 {
        (u - 0x30) as u8
    } else if 0x61 <= u && u <= 0x66 {
        (u - 0x61 + 10) as u8
    } else {
        (u - 0x41 + 10) as u8
    }
}

/// True when every character of `s` is a hex digit.
pub open spec fn all_hex(s: Seq<char>) -> bool {
    forall|i: int| 0 <= i < s.len() ==> is_hex_digit(s[i])
}

/// The bytes denoted by a sequence of hex digit pairs.
pub open spec fn hex_bytes(s: Seq<char>) -> Seq<u8>
    recommends
        s.len() % 2 == 0,
        all_hex(s),
{
    Seq::new((s.len() / 2) as nat, |i: int| (hex_val(s[2 * i]) * 16 + hex_val(s[2 * i + 1])) as u8)
}

/// Hex decoding: the bytes of `s`, or `None` on an odd length or a
/// character that is not a hex digit.
pub open spec fn hex_decode_spec(s: Seq<char>) -> Option<Seq<u8>> {
    if s.len() % 2 == 0 && all_hex(s) {
        Some(hex_bytes(s))
    } else {
        None
    }
}

/// The lower-case hex digit for a value below 16.
pub open spec fn hex_digit_char(v: u8) -> char
    recommends
        v < 16,
{
    if v == 0 { '0' } else if v == 1 { '1' } else if v == 2 { '2' } else if v == 3 { '3' }
    else if v == 4 { '4' } else if v == 5 { '5' } else if v == 6 { '6' } else if v == 7 { '7' }
    else if v == 8 { '8' } else if v == 9 { '9' } else if v == 10 { 'a' } else if v == 11 { 'b' }
    else if v == 12 { 'c' } else if v == 13 { 'd' } else if v == 14 { 'e' } else { 'f' }
}

/// Lower-case hex encoding: two digits for each byte, in order.
pub open spec fn hex_encode_spec(b: Seq<u8>) -> Seq<char> {
    Seq::new(
        2 * b.len(),
        |i: int| if i % 2 == 0 {
            hex_digit_char(b[i / 2] / 16)
        } else {
            hex_digit_char(b[i / 2] % 16)
        },
    )
}

/// A hex digit's character is a digit of its value, and is never whitespace.
pub proof fn lemma_hex_digit_char(v: u8)
    requires
        v < 16,
    ensures
        is_hex_digit(hex_digit_char(v)),
        hex_val(hex_digit_char(v)) == v,
        !is_ws_char(hex_digit_char(v)),
{
}

/// Decoding inverts encoding: the decoder accepts every encoded byte
/// sequence and returns the original bytes.
pub proof fn lemma_hex_roundtrip(b: Seq<u8>)
    ensures
        hex_decode_spec(hex_encode_spec(b)) == Some(b),
{
    let s = hex_encode_spec(b);
    assert forall|i: int| 0 <= i < s.len() implies is_hex_digit(s[i]) by {
        if i % 2 == 0 {
            lemma_hex_digit_char(b[i / 2] / 16);
        } else {
            lemma_hex_digit_char(b[i / 2] % 16);
        }
    }
    assert forall|i: int| 0 <= i < b.len() implies hex_bytes(s)[i] == b[i] by {
        assert(s[2 * i] == hex_digit_char(b[i] / 16));
        assert(s[2 * i + 1] == hex_digit_char(b[i] % 16));
        lemma_hex_digit_char(b[i] / 16);
        lemma_hex_digit_char(b[i] % 16);
    }
    assert(hex_bytes(s) =~= b);
}

/// No character of an encoded payload is whitespace.
pub proof fn lemma_hex_encode_no_ws(b: Seq<u8>)
    ensures
        forall|i: int| 0 <= i < hex_encode_spec(b).len()
            ==> !is_ws_char(#[trigger] hex_encode_spec(b)[i]),
{
    assert forall|i: int| 0 <= i < hex_encode_spec(b).len()
        implies !is_ws_char(hex_encode_spec(b)[i]) by {
        if i % 2 == 0 {
            lemma_hex_digit_char(b[i / 2] / 16);
        } else {
            lemma_hex_digit_char(b[i / 2] % 16);
        }
    }
}

/// The numeric value of a hex digit character, or `None` for any other
/// character.
pub fn hex_digit_value(c: char) -> (r: Option<u8>)
    ensures
        r is Some <==> is_hex_digit(c),
        r matches Some(v) ==> v == hex_val(c) && v < 16,
{
    let u = c as u32;
    if 0x30 <= u && u <= 0x39 {
        Some((u - 0x30) as u8)
    } else if 0x61 <= u && u <= 0x66 {
        Some((u - 0x61 + 10) as u8)
    } else if 0x41 <= u && u <= 0x46 {
        Some((u - 0x41 + 10) as u8)
    } else {
        None
    }
}

/// Decodes a hex token into its bytes; `None` exactly on inputs the
/// specification rejects.
pub fn hex_decode(s: &Vec<char>) -> (r: Option<Vec<u8>>)
    ensures
        r matches Some(v) ==> hex_decode_spec(s@) == Some(v@),
        r is None ==> hex_decode_spec(s@) is None,
{
    let n = s.len();
    if n % 2 != 0 {
        return None;
    }
    let mut out: Vec<u8> = Vec::new();
    let mut i: usize = 0;
    while i < n
        invariant
            n == s@.len(),
            i <= n,
            i % 2 == 0,
            n % 2 == 0,
            forall|j: int| 0 <= j < i ==> is_hex_digit(s@[j]),
            out@.len() == i / 2,
            forall|j: int| 0 <= j < out@.len()
                ==> out@[j] == (hex_val(s@[2 * j]) * 16 + hex_val(s@[2 * j + 1])) as u8,
        decreases n - i,
    {
        let hi = match hex_digit_value(s[i]) {
            Some(v) => v,
            None => {
                return None;
            },
        };
        let lo = match hex_digit_value(s[i + 1]) {
            Some(v) => v,
            None => {
                return None;
            },
        };
        out.push(hi * 16 + lo);
        i = i + 2;
    }
    proof {
        assert(all_hex(s@));
        assert(out@ =~= hex_bytes(s@));
    }
    Some(out)
}

} // verus!
