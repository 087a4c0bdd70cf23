//! Hexadecimal text.
use vstd::prelude::*;

verus! {

/// Why a text is not the hexadecimal form of some bytes.
#[derive(Clone, Copy, Debug, PartialEq, Eq)]
pub enum HexError {
    /// The text has an odd number of bytes.
    OddLength,
    /// The byte at `index` is no hexadecimal digit; `c` is that byte as a character.
    InvalidHexCharacter { c: char, index: usize },
    /// The text does not fill a buffer of fixed size.
    InvalidStringLength,
}

/// Value of a hexadecimal digit, of either case.
pub open spec fn digit_value(c: u8) -> Option<u8> {
    if 48 <= c <= 57 {
        Some((c - 48) as u8)
    } else if 65 <= c <= 70 {
        Some((c - 55) as u8)
    } else if 97 <= c <= 102 {
        Some((c - 87) as u8)
    } else {
        None
    }
}

/// The first `count` bytes of `text` are hexadecimal digits.
pub open spec fn digits_up_to(text: Seq<u8>, count: int) -> bool {
    forall|i: int| 0 <= i < count ==> (#[trigger] digit_value(text[i])) is Some
}

/// `text` is the hexadecimal form of some bytes.
pub open spec fn is_hex(text: Seq<u8>) -> bool {
    text.len() % 2 == 0 && digits_up_to(text, text.len() as int)
}

/// The bytes of which `text` is the hexadecimal form.
pub open spec fn hex_bytes(text: Seq<u8>) -> Seq<u8> {
    Seq::new(
        text.len() / 2,
        |i: int| (16 * digit_value(text[2 * i])->0 + digit_value(text[2 * i + 1])->0) as u8,
    )
}

/// What decoding `text` fails with, if it fails.
pub open spec fn hex_error(text: Seq<u8>, error: HexError) -> bool {
    match error {
        HexError::OddLength => text.len() % 2 == 1,
        HexError::InvalidHexCharacter { c, index } => {
            &&& text.len() % 2 == 0
            &&& index < text.len()
            &&& digits_up_to(text, index as int)
            &&& digit_value(text[index as int]) is None
            &&& c as int == text[index as int] as int
        },
        HexError::InvalidStringLength => false,
    }
}

/// Lower-case hexadecimal digit for a number below sixteen.
pub open spec fn hex_digit(value: int) -> char {
    if value < 10 {
        (48 + value) as char
    } else {
        (87 + value) as char
    }
}

/// Lower-case hexadecimal form of `bytes`.
pub open spec fn hex_text(bytes: Seq<u8>) -> Seq<char> {
    Seq::new(
        2 * bytes.len(),
        |i: int|
            if i % 2 == 0 {
                hex_digit(bytes[i / 2] as int / 16)
            } else {
                hex_digit(bytes[i / 2] as int % 16)
            },
    )
}

/// Calls `hex::decode`. Trusted: it accepts exactly the texts of even length that
/// consist of hexadecimal digits of either case and returns the bytes that the
/// pairs of digits stand for. Otherwise it reports an odd length, or else the
/// first byte that is no digit.
#[verifier::external_body]
pub(crate) fn hex_decode(text: &str) -> (result: Result<Vec<u8>, HexError>)
    ensures
        match result {
            Ok(bytes) => is_hex(vstd::utf8::encode_utf8(text@)) && bytes@ == hex_bytes(
                vstd::utf8::encode_utf8(text@),
            ),
            Err(error) => hex_error(vstd::utf8::encode_utf8(text@), error),
        },
{
    hex::decode(text).map_err(
        |error|
            match error {
                hex::FromHexError::OddLength => HexError::OddLength,
                hex::FromHexError::InvalidHexCharacter { c, index } => {
                    HexError::InvalidHexCharacter { c, index }
                },
                hex::FromHexError::InvalidStringLength => HexError::InvalidStringLength,
            },
    )
}

/// Calls `hex::encode`. Trusted: it writes two lower-case digits for each byte,
/// the more significant one first.
#[verifier::external_body]
pub(crate) fn hex_encode(bytes: &[u8]) -> (text: String)
    ensures
        text@ == hex_text(bytes@),
{
    hex::encode(bytes)
}

/// Decoding gives back the bytes that were encoded.
pub proof fn lemma_hex_round_trip(bytes: Seq<u8>)
    ensures
        is_hex(vstd::utf8::encode_utf8(hex_text(bytes))),
        hex_bytes(vstd::utf8::encode_utf8(hex_text(bytes))) == bytes,
{
    let chars = hex_text(bytes);
    let text = vstd::utf8::encode_utf8(chars);
    assert(vstd::utf8::is_ascii_chars(chars));
    vstd::utf8::is_ascii_chars_encode_utf8(chars);
    assert(text.len() == 2 * bytes.len());
    assert forall|i: int| 0 <= i < text.len() implies (#[trigger] digit_value(text[i])) is Some by {
        assert(text[i] == chars[i] as u8);
    }
    assert forall|i: int| 0 <= i < bytes.len() implies hex_bytes(text)[i] == bytes[i] by {
        assert(text[2 * i] == chars[2 * i] as u8);
        assert(text[2 * i + 1] == chars[2 * i + 1] as u8);
        assert(chars[2 * i] == hex_digit(bytes[i] as int / 16));
        assert(chars[2 * i + 1] == hex_digit(bytes[i] as int % 16));
        assert(digit_value(text[2 * i]) == Some((bytes[i] / 16) as u8));
        assert(digit_value(text[2 * i + 1]) == Some((bytes[i] % 16) as u8));
    }
    assert(hex_bytes(text) =~= bytes);
}

} // verus!
