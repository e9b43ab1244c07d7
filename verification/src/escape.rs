//! Escaping of strings that go into messages, so that control characters in
//! them cannot alter what is shown.

use vstd::prelude::*;
use vstd::string::StringSliceAdditionalSpecFns;
use vstd::utf8::{decode_utf8, encode_utf8, is_ascii_chars, valid_utf8};

verus! {

/// The digit of `n` in base sixteen, in lower case.
pub open spec fn hex_digit(n: u8) -> u8 {
    if n < 10 {
        (48 + n) as u8
    } else {
        (87 + n) as u8
    }
}

/// The escaped form of one byte: the two-character escapes for tab,
/// carriage return, line feed, the two quotes and the backslash; printable
/// ASCII as it is; every other byte as `\x` and two hex digits.
pub open spec fn spec_escape_byte(b: u8) -> Seq<u8> {
    if b == 9 {
        seq![92u8, 116u8]
    } else if b == 13 {
        seq![92u8, 114u8]
    } else if b == 10 {
        seq![92u8, 110u8]
    } else if b == 39 {
        seq![92u8, 39u8]
    } else if b == 34 {
        seq![92u8, 34u8]
    } else if b == 92 {
        seq![92u8, 92u8]
    } else if 0x20 <= b <= 0x7e {
        seq![b]
    } else {
        seq![92u8, 120u8, hex_digit(b / 16), hex_digit(b % 16)]
    }
}

/// The escaped forms of the bytes of `bytes`, one after the other.
pub open spec fn spec_escape(bytes: Seq<u8>) -> Seq<u8>
    decreases bytes.len(),
{
    if bytes.len() == 0 {
        Seq::<u8>::empty()
    } else {
        spec_escape(bytes.drop_last()) + spec_escape_byte(bytes.last())
    }
}

/// The characters that ASCII bytes stand for.
pub open spec fn ascii_chars(bytes: Seq<u8>) -> Seq<char> {
    Seq::new(bytes.len(), |i: int| bytes[i] as char)
}

/// The digit of `n` in base sixteen, in lower case.
fn hex(n: u8) -> (d: u8)
    requires
        n < 16,
    ensures
        d == hex_digit(n),
{
    if n < 10 {
        48 + n
    } else {
        87 + n
    }
}

/// The escaped form of one byte.
fn escape_byte(b: u8) -> (r: Vec<u8>)
    ensures
        r@ == spec_escape_byte(b),
{
    let mut r: Vec<u8> = Vec::new();
    r.push(92);
    if b == 9 {
        r.push(116);
    } else if b == 13 {
        r.push(114);
    } else if b == 10 {
        r.push(110);
    } else if b == 39 || b == 34 || b == 92 {
        r.push(b);
    } else if 0x20 <= b && b <= 0x7e {
        r.clear();
        r.push(b);
    } else {
        r.push(120);
        r.push(hex(b / 16));
        r.push(hex(b % 16));
    }
    assert(r@ =~= spec_escape_byte(b));
    r
}

/// Calls `String::from_utf8`: bytes that are valid UTF-8 give the string
/// that they encode, other bytes give nothing.
#[verifier::external_body]
fn from_utf8(bytes: Vec<u8>) -> (r: Option<String>)
    ensures
        r is Some <==> valid_utf8(bytes@),
        r matches Some(s) ==> s@ == decode_utf8(bytes@),
{
    String::from_utf8(bytes).ok()
}

/// The escaped form of a byte is ASCII.
pub proof fn lemma_escape_byte_ascii(b: u8)
    ensures
        forall|i: int| 0 <= i < spec_escape_byte(b).len() ==> #[trigger] spec_escape_byte(b)[i] < 128,
{
}

/// Bytes that are all ASCII are valid UTF-8 and encode the characters that
/// they stand for.
pub proof fn lemma_ascii_bytes(bytes: Seq<u8>)
    requires
        forall|i: int| 0 <= i < bytes.len() ==> #[trigger] bytes[i] < 128,
    ensures
        valid_utf8(bytes),
        decode_utf8(bytes) == ascii_chars(bytes),
{
    let chars = ascii_chars(bytes);
    assert(is_ascii_chars(chars)) by {
        assert forall|i: int| 0 <= i < chars.len() implies '\0' <= #[trigger] chars[i]
            <= '\u{7f}' by {
            assert(bytes[i] < 128);
        }
    }
    vstd::utf8::is_ascii_chars_encode_utf8(chars);
    assert(encode_utf8(chars) =~= bytes) by {
        assert forall|i: int| 0 <= i < bytes.len() implies encode_utf8(chars)[i] == bytes[i] by {
            assert(chars[i] as u8 == encode_utf8(chars)[i]);
            assert(bytes[i] < 128);
        }
    }
    vstd::utf8::encode_utf8_valid_utf8(chars);
    vstd::utf8::encode_utf8_decode_utf8(chars);
}

/// An escaped version of `s`: every byte of `s` that is not printable ASCII,
/// and every quote and backslash, is replaced by its escape. The result is
/// ASCII.
pub fn escape(s: &str) -> (r: String)
    ensures
        r@ == ascii_chars(spec_escape(s.spec_bytes())),
{
    let bytes = s.as_bytes();
    let mut out: Vec<u8> = Vec::new();
    let mut i: usize = 0;
    while i < bytes.len()
        invariant
            i <= bytes@.len(),
            out@ == spec_escape(bytes@.subrange(0, i as int)),
            forall|j: int| 0 <= j < out@.len() ==> #[trigger] out@[j] < 128,
        decreases bytes@.len() - i,
    {
        let b: u8 = bytes[i];
        let mut piece = escape_byte(b);
        proof {
            lemma_escape_byte_ascii(b);
            let next = bytes@.subrange(0, i + 1);
            assert(next.drop_last() =~= bytes@.subrange(0, i as int));
            assert(next.last() == b);
        }
        out.append(&mut piece);
        i = i + 1;
    }
    proof {
        assert(bytes@.subrange(0, i as int) =~= bytes@);
        lemma_ascii_bytes(out@);
    }
    match from_utf8(out) {
        Some(text) => text,
        None => String::new(),
    }
}

} // verus!
