//! Conversion between bytes and text.

use vstd::prelude::*;
use vstd::utf8::*;

verus! {

/// `core::str::Utf8Error`, the error of `core::str::from_utf8`. Opaque: it is
/// only ever dropped.
#[verifier::external_type_specification]
#[verifier::external_body]
pub struct ExUtf8Error(core::str::Utf8Error);

/// Trusted, of `core::str::from_utf8`: it succeeds exactly on well-formed
/// UTF-8, and the text it returns is made of the very bytes it was given.
pub assume_specification[ core::str::from_utf8 ](v: &[u8]) -> (r: Result<
    &str,
    core::str::Utf8Error,
>)
    ensures
        r is Ok <==> valid_utf8(v@),
        r matches Ok(s) ==> encode_utf8(s@) == v@,
;

/// The text that `codes` spells when every code is an ASCII character.
pub open spec fn ascii_chars(codes: Seq<u8>) -> Seq<char> {
    codes.map_values(|b: u8| b as char)
}

/// The text spelled by UTF-8 `bytes`, or `None` where they are not UTF-8.
pub open spec fn utf8_text(bytes: Seq<u8>) -> Option<Seq<char>> {
    if valid_utf8(bytes) {
        Some(decode_utf8(bytes))
    } else {
        None
    }
}

/// ASCII codes are their own UTF-8 encoding.
pub proof fn lemma_ascii_is_utf8(codes: Seq<u8>)
    requires
        forall|i: int| 0 <= i < codes.len() ==> codes[i] < 128,
    ensures
        utf8_text(codes) == Some(ascii_chars(codes)),
{
    let chars = ascii_chars(codes);
    assert(is_ascii_chars(chars));
    is_ascii_chars_encode_utf8(chars);
    assert(encode_utf8(chars) =~= codes);
    encode_utf8_valid_utf8(chars);
    encode_utf8_decode_utf8(chars);
}

/// The bytes of one encoded character are the character itself, where it is
/// ASCII, and lie above the ASCII range where it is not.
proof fn lemma_scalar_bytes(c: char, i: int)
    requires
        0 <= i < encode_scalar(c as u32).len(),
    ensures
        encode_scalar(c as u32)[i] == c as u32 || encode_scalar(c as u32)[i] >= 128,
{
    let s = c as u32;
    assert(s <= 0x7f ==> (s & 0x7F) as u8 == s) by (bit_vector);
    assert((0xC0u8 | ((s >> 6) & 0x1F) as u8) >= 128) by (bit_vector);
    assert((0xE0u8 | ((s >> 12) & 0x0F) as u8) >= 128) by (bit_vector);
    assert((0xF0u8 | ((s >> 18) & 0x7) as u8) >= 128) by (bit_vector);
    assert((0x80u8 | (s & 0x3F) as u8) >= 128) by (bit_vector);
    assert((0x80u8 | ((s >> 6) & 0x3F) as u8) >= 128) by (bit_vector);
    assert((0x80u8 | ((s >> 12) & 0x3F) as u8) >= 128) by (bit_vector);
}

/// An ASCII character that a text does not hold does not show up among the
/// bytes of its UTF-8 encoding.
pub proof fn lemma_encoding_avoids(chars: Seq<char>, byte: u8)
    requires
        byte < 128,
        forall|i: int| 0 <= i < chars.len() ==> chars[i] != byte as char,
    ensures
        forall|j: int| 0 <= j < encode_utf8(chars).len() ==> encode_utf8(chars)[j] != byte,
    decreases chars.len(),
{
    if chars.len() > 0 {
        let head = encode_scalar(chars[0] as u32);
        let rest = chars.drop_first();
        assert forall|i: int| 0 <= i < rest.len() implies rest[i] != byte as char by {
            assert(rest[i] == chars[i + 1]);
        }
        lemma_encoding_avoids(rest, byte);
        assert forall|j: int| 0 <= j < encode_utf8(chars).len() implies encode_utf8(chars)[j]
            != byte by {
            if j < head.len() {
                lemma_scalar_bytes(chars[0], j);
                assert(encode_utf8(chars)[j] == head[j]);
                if head[j] == byte {
                    char_u32_cast(chars[0], byte as u32);
                    assert(chars[0] == byte as char);
                }
            } else {
                assert(encode_utf8(chars)[j] == encode_utf8(rest)[j - head.len()]);
            }
        }
    }
}

/// Decodes `bytes` as UTF-8 text.
pub fn decode_text(bytes: &[u8]) -> (text: Option<String>)
    ensures
        match text {
            Some(s) => utf8_text(bytes@) == Some(s@),
            None => utf8_text(bytes@) is None,
        },
{
    match core::str::from_utf8(bytes) {
        Ok(s) => {
            proof {
                encode_utf8_decode_utf8(s@);
            }
            Some(s.to_owned())
        },
        Err(_) => None,
    }
}

/// Builds the string spelled by ASCII `codes`.
pub fn ascii_string(codes: &[u8]) -> (text: String)
    requires
        forall|i: int| 0 <= i < codes@.len() ==> codes@[i] < 128,
    ensures
        text@ == ascii_chars(codes@),
{
    proof {
        lemma_ascii_is_utf8(codes@);
    }
    match decode_text(codes) {
        Some(s) => s,
        None => unreached(),
    }
}

/// Whether two strings spell the same text.
pub fn same_text(a: &str, b: &str) -> (same: bool)
    ensures
        same == (a@ == b@),
{
    let x = a.as_bytes();
    let y = b.as_bytes();
    if x.len() != y.len() {
        return false;
    }
    let mut i: usize = 0;
    while i < x.len()
        invariant
            i <= x@.len(),
            x@.len() == y@.len(),
            x@ == encode_utf8(a@),
            y@ == encode_utf8(b@),
            forall|k: int| 0 <= k < i ==> x@[k] == y@[k],
        decreases x@.len() - i,
    {
        if x[i] != y[i] {
            return false;
        }
        i += 1;
    }
    proof {
        assert(x@ =~= y@);
        encode_utf8_decode_utf8(a@);
        encode_utf8_decode_utf8(b@);
    }
    true
}

} // verus!
