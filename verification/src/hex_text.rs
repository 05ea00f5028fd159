//! Hexadecimal text of byte strings: what the `hex` crate writes and reads.

use vstd::prelude::*;
use hex::FromHexError;

verus! {

/// The lowercase hexadecimal digit that stands for `n`, for `0 <= n < 16`.
pub open spec fn hex_digit(n: int) -> char {
    if n < 10 {
        ('0' as int + n) as char
    } else {
        ('a' as int + n - 10) as char
    }
}

/// The number that a hexadecimal digit of either case stands for, and `-1`
/// for every other character.
pub open spec fn hex_value(c: char) -> int {
    if '0' <= c <= '9' {
        c as int - '0' as int
    } else if 'a' <= c <= 'f' {
        c as int - 'a' as int + 10
    } else if 'A' <= c <= 'F' {
        c as int - 'A' as int + 10
    } else {
        -1
    }
}

/// True of the 22 characters `0-9`, `a-f` and `A-F`.
pub open spec fn is_hex_char(c: char) -> bool {
    hex_value(c) >= 0
}

/// True when every character of `text` is a hexadecimal digit.
pub open spec fn is_hex_text(text: Seq<char>) -> bool {
    forall|i: int| 0 <= i < text.len() ==> is_hex_char(#[trigger] text[i])
}

/// True when `text` spells a 32-byte hash: exactly 64 hexadecimal digits.
pub open spec fn is_hash_text(text: Seq<char>) -> bool {
    text.len() == 64 && is_hex_text(text)
}

/// The canonical text of `bytes`: two lowercase digits per byte, the high
/// half first.
pub open spec fn hex_text(bytes: Seq<u8>) -> Seq<char> {
    Seq::new(
        2 * bytes.len(),
        |i: int|
            if i % 2 == 0 {
                hex_digit(bytes[i / 2] as int / 16)
            } else {
                hex_digit(bytes[i / 2] as int % 16)
            },
    )
}

/// The bytes that `text` spells, one for each pair of digits.
pub open spec fn hex_bytes(text: Seq<char>) -> Seq<u8> {
    Seq::new(
        text.len() / 2,
        |i: int| (16 * hex_value(text[2 * i]) + hex_value(text[2 * i + 1])) as u8,
    )
}

#[verifier::external_type_specification]
#[verifier::external_body]
pub struct ExFromHexError(hex::FromHexError);

/// `hex::encode` on a 32-byte array. Trusted: the string it returns holds, for
/// each byte in order, the digit of its high four bits and then the digit of
/// its low four bits, both taken from `0123456789abcdef`.
#[verifier::external_body]
pub(crate) fn hex_encode(bytes: &[u8; 32]) -> (text: String)
    ensures
        text@ == hex_text(bytes@),
{
    hex::encode(bytes)
}

/// `hex::decode_to_slice` into a 32-byte array. Trusted: it succeeds exactly
/// when the text is 64 bytes long and each of them is one of `0-9`, `a-f`,
/// `A-F` (so the text has 64 characters, all of them such digits), and byte
/// `i` of the result is then sixteen times the value of digit `2 i` plus the
/// value of digit `2 i + 1`.
#[verifier::external_body]
pub(crate) fn hex_decode(text: &str) -> (decoded: Result<[u8; 32], FromHexError>)
    ensures
        decoded is Ok <==> is_hash_text(text@),
        decoded matches Ok(bytes) ==> bytes@ == hex_bytes(text@),
{
    let mut bytes = [0u8; 32];
    match hex::decode_to_slice(text, &mut bytes) {
        Ok(()) => Ok(bytes),
        Err(e) => Err(e),
    }
}

/// A digit stands for the number it was written for.
pub proof fn lemma_digit_value(n: int)
    requires
        0 <= n < 16,
    ensures
        hex_value(hex_digit(n)) == n,
        is_hex_char(hex_digit(n)),
{
}

/// The canonical text of any bytes consists of hexadecimal digits, two per
/// byte.
pub proof fn lemma_hex_text_is_hex(bytes: Seq<u8>)
    ensures
        hex_text(bytes).len() == 2 * bytes.len(),
        is_hex_text(hex_text(bytes)),
{
    assert forall|i: int| 0 <= i < hex_text(bytes).len() implies is_hex_char(
        #[trigger] hex_text(bytes)[i],
    ) by {
        let b = bytes[i / 2] as int;
        lemma_digit_value(b / 16);
        lemma_digit_value(b % 16);
    }
}

/// Writing bytes as text and reading the text back gives the same bytes.
pub proof fn lemma_hex_round_trip(bytes: Seq<u8>)
    ensures
        hex_bytes(hex_text(bytes)) == bytes,
{
    let text = hex_text(bytes);
    assert forall|i: int| 0 <= i < bytes.len() implies hex_bytes(text)[i] == bytes[i] by {
        let b = bytes[i] as int;
        assert((2 * i) / 2 == i && (2 * i) % 2 == 0);
        assert((2 * i + 1) / 2 == i && (2 * i + 1) % 2 == 1);
        lemma_digit_value(b / 16);
        lemma_digit_value(b % 16);
        assert(text[2 * i] == hex_digit(b / 16));
        assert(text[2 * i + 1] == hex_digit(b % 16));
        assert(16 * (b / 16) + b % 16 == b);
    }
    assert(hex_bytes(text) =~= bytes);
}

} // verus!
