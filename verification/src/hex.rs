//! Lowercase hexadecimal rendering of byte strings.

use crate::text::{ascii_chars, ascii_string};
use vstd::prelude::*;

verus! {

/// The ASCII code of the lowercase hexadecimal digit for `n`.
pub open spec fn hex_digit(n: int) -> u8
    recommends
        0 <= n < 16,
{
    if n < 10 {
        (48 + n) as u8
    } else {
        (87 + n) as u8
    }
}

/// The hexadecimal rendering of `bytes` as ASCII codes: for each byte its high
/// nibble, then its low nibble.
pub open spec fn hex_bytes(bytes: Seq<u8>) -> Seq<u8> {
    Seq::new(
        2 * bytes.len(),
        |i: int|
            if i % 2 == 0 {
                hex_digit(bytes[i / 2] as int / 16)
            } else {
                hex_digit(bytes[i / 2] as int % 16)
            },
    )
}

/// The hexadecimal rendering of `bytes` as text.
pub open spec fn hex_text(bytes: Seq<u8>) -> Seq<char> {
    ascii_chars(hex_bytes(bytes))
}

/// Whether `c` is one of `0`..`9`, `a`..`f`.
pub open spec fn is_lower_hex(c: char) -> bool {
    ('0' <= c <= '9') || ('a' <= c <= 'f')
}

fn digit_code(n: u8) -> (code: u8)
    requires
        n < 16,
    ensures
        code == hex_digit(n as int),
        code < 128,
{
    if n < 10 {
        48 + n
    } else {
        87 + n
    }
}

/// Renders `bytes` as ASCII hexadecimal digits, two per byte, in byte order.
pub fn hex_codes(bytes: &[u8]) -> (out: Vec<u8>)
    ensures
        out@ == hex_bytes(bytes@),
{
    let mut out: Vec<u8> = Vec::new();
    let mut i: usize = 0;
    while i < bytes.len()
        invariant
            i <= bytes.len(),
            out@.len() == 2 * i,
            forall|k: int| 0 <= k < out@.len() ==> out@[k] == #[trigger] hex_bytes(bytes@)[k],
        decreases bytes.len() - i,
    {
        let b: u8 = bytes[i];
        out.push(digit_code(b / 16));
        out.push(digit_code(b % 16));
        i += 1;
    }
    out
}

/// A hexadecimal rendering has two characters for each byte, all of them
/// lowercase hexadecimal digits.
pub proof fn lemma_hex_text_shape(bytes: Seq<u8>)
    ensures
        hex_text(bytes).len() == 2 * bytes.len(),
        forall|i: int| 0 <= i < 2 * bytes.len() ==> is_lower_hex(#[trigger] hex_text(bytes)[i]),
{
    assert forall|i: int| 0 <= i < 2 * bytes.len() implies is_lower_hex(
        #[trigger] hex_text(bytes)[i],
    ) by {
        let b = bytes[i / 2] as int;
        let n = if i % 2 == 0 {
            b / 16
        } else {
            b % 16
        };
        assert(0 <= n < 16);
        assert(hex_bytes(bytes)[i] == hex_digit(n));
        assert(hex_text(bytes)[i] == hex_digit(n) as char);
    }
}

/// Renders `bytes` as lowercase hexadecimal text, two digits per byte, in byte
/// order.
pub fn hex_encode(bytes: &[u8]) -> (text: String)
    ensures
        text@ == hex_text(bytes@),
        text@.len() == 2 * bytes@.len(),
        forall|i: int| 0 <= i < text@.len() ==> is_lower_hex(#[trigger] text@[i]),
{
    let codes = hex_codes(bytes);
    proof {
        lemma_hex_text_shape(bytes@);
        assert forall|i: int| 0 <= i < codes@.len() implies codes@[i] < 128 by {
            let b = bytes@[i / 2] as int;
            assert(0 <= b / 16 < 16 && 0 <= b % 16 < 16);
        }
    }
    ascii_string(codes.as_slice())
}

} // verus!
