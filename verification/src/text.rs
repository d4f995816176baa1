//! Bytes as text: UTF-8 payloads, ASCII type codes, and numbers in digits.
//!
//! Strings are made by `String::from_utf8` of the standard library. Its
//! contract below is believed, not proved; what UTF-8 is, is taken from
//! `vstd::utf8`.

use vstd::prelude::*;
use vstd::utf8::{
    decode_utf8, encode_utf8, encode_utf8_decode_utf8, encode_utf8_valid_utf8, is_ascii_chars,
    is_ascii_chars_encode_utf8, valid_utf8,
};

verus! {

/// The error of `String::from_utf8`. Nothing is read from it.
#[verifier::external_type_specification]
#[verifier::external_body]
pub struct ExFromUtf8Error(std::string::FromUtf8Error);

/// `String::from_utf8` checks that the bytes are UTF-8 and then makes the
/// string out of those very bytes; it fails exactly where they are not
/// UTF-8. This is what its documentation says, and it is not proved here.
pub assume_specification[ std::string::String::from_utf8 ](vec: Vec<u8>) -> (r: Result<
    String,
    std::string::FromUtf8Error,
>)
    ensures
        r is Ok <==> valid_utf8(vec@),
        r matches Ok(s) ==> encode_utf8(s@) == vec@,
;

/// Every byte is below 128.
pub open spec fn is_ascii_bytes(bytes: Seq<u8>) -> bool {
    forall|i: int| 0 <= i < bytes.len() ==> #[trigger] bytes[i] < 128
}

/// The characters that ASCII bytes stand for, one for each byte.
pub open spec fn ascii_chars(bytes: Seq<u8>) -> Seq<char> {
    Seq::new(bytes.len(), |i: int| bytes[i] as char)
}

/// ASCII bytes are UTF-8: each byte is the encoding of its own character.
pub proof fn lemma_ascii_is_utf8(bytes: Seq<u8>)
    requires
        is_ascii_bytes(bytes),
    ensures
        valid_utf8(bytes),
        decode_utf8(bytes) == ascii_chars(bytes),
        encode_utf8(ascii_chars(bytes)) == bytes,
{
    let chars = ascii_chars(bytes);
    assert(is_ascii_chars(chars));
    is_ascii_chars_encode_utf8(chars);
    assert(encode_utf8(chars) =~= bytes);
    encode_utf8_valid_utf8(chars);
    encode_utf8_decode_utf8(chars);
}

/// Reads bytes as UTF-8 text, if they are UTF-8.
pub fn utf8_to_string(bytes: &[u8]) -> (r: Option<String>)
    ensures
        r is Some <==> valid_utf8(bytes@),
        r matches Some(s) ==> s@ == decode_utf8(bytes@),
{
    let mut owned: Vec<u8> = Vec::new();
    owned.extend_from_slice(bytes);
    assert(owned@ =~= bytes@);
    match String::from_utf8(owned) {
        Ok(s) => {
            proof {
                encode_utf8_decode_utf8(s@);
            }
            Some(s)
        },
        Err(_) => None,
    }
}

/// Reads ASCII bytes as text.
pub(crate) fn ascii_to_string(bytes: &[u8]) -> (s: String)
    requires
        is_ascii_bytes(bytes@),
    ensures
        s@ == ascii_chars(bytes@),
{
    proof {
        lemma_ascii_is_utf8(bytes@);
    }
    match utf8_to_string(bytes) {
        Some(s) => s,
        None => String::new(),
    }
}

/// The ASCII digit for a number below ten.
pub open spec fn digit(d: nat) -> u8
    recommends
        d < 10,
{
    (48 + d) as u8
}

/// A number in decimal digits, the most significant first.
pub open spec fn decimal(n: nat) -> Seq<u8>
    decreases n,
{
    if n < 10 {
        seq![digit(n)]
    } else {
        decimal(n / 10).push(digit(n % 10))
    }
}

/// A number in binary digits, the most significant first.
pub open spec fn binary(n: nat) -> Seq<u8>
    decreases n,
{
    if n < 2 {
        seq![digit(n)]
    } else {
        binary(n / 2).push(digit(n % 2))
    }
}

/// Decimal digits are ASCII.
pub proof fn lemma_decimal_is_ascii(n: nat)
    ensures
        is_ascii_bytes(decimal(n)),
    decreases n,
{
    if n >= 10 {
        lemma_decimal_is_ascii(n / 10);
    }
}

/// Binary digits are ASCII.
pub proof fn lemma_binary_is_ascii(n: nat)
    ensures
        is_ascii_bytes(binary(n)),
    decreases n,
{
    if n >= 2 {
        lemma_binary_is_ascii(n / 2);
    }
}

/// Puts the decimal digits of `n` at the end of `out`.
fn push_decimal(n: u64, out: &mut Vec<u8>)
    ensures
        final(out)@ == old(out)@ + decimal(n as nat),
    decreases n,
{
    if n >= 10 {
        push_decimal(n / 10, out);
    }
    let last: u8 = 48 + (n % 10) as u8;
    out.push(last);
    assert(out@ =~= old(out)@ + decimal(n as nat));
}

/// Puts the binary digits of `n` at the end of `out`.
fn push_binary(n: u64, out: &mut Vec<u8>)
    ensures
        final(out)@ == old(out)@ + binary(n as nat),
    decreases n,
{
    if n >= 2 {
        push_binary(n / 2, out);
    }
    let last: u8 = 48 + (n % 2) as u8;
    out.push(last);
    assert(out@ =~= old(out)@ + binary(n as nat));
}

/// A number in decimal digits, as text.
pub fn decimal_string(n: u64) -> (s: String)
    ensures
        s@ == ascii_chars(decimal(n as nat)),
{
    let mut out: Vec<u8> = Vec::new();
    push_decimal(n, &mut out);
    proof {
        lemma_decimal_is_ascii(n as nat);
        assert(out@ =~= decimal(n as nat));
    }
    ascii_to_string(out.as_slice())
}

/// A number in binary digits, as text.
pub fn binary_string(n: u64) -> (s: String)
    ensures
        s@ == ascii_chars(binary(n as nat)),
{
    let mut out: Vec<u8> = Vec::new();
    push_binary(n, &mut out);
    proof {
        lemma_binary_is_ascii(n as nat);
        assert(out@ =~= binary(n as nat));
    }
    ascii_to_string(out.as_slice())
}

} // verus!
