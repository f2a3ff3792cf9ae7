//! Text encodings the vault stores its material in: hex for the persisted
//! key, base64 for ciphertext blobs, and UTF-8 for recovered plaintext.

use vstd::prelude::*;
use vstd::utf8::encode_utf8;
use vstd::utf8::valid_utf8;

use crate::errors::VaultError;

verus! {

/// The lowercase hex digit character for a value in 0..16.
pub open spec fn hex_digit(d: int) -> char {
    if d == 0 {
        '0'
    } else if d == 1 {
        '1'
    } else if d == 2 {
        '2'
    } else if d == 3 {
        '3'
    } else if d == 4 {
        '4'
    } else if d == 5 {
        '5'
    } else if d == 6 {
        '6'
    } else if d == 7 {
        '7'
    } else if d == 8 {
        '8'
    } else if d == 9 {
        '9'
    } else if d == 10 {
        'a'
    } else if d == 11 {
        'b'
    } else if d == 12 {
        'c'
    } else if d == 13 {
        'd'
    } else if d == 14 {
        'e'
    } else {
        'f'
    }
}

/// Lowercase hex rendering of a byte sequence, two digits per byte.
pub open spec fn hex_of(bytes: Seq<u8>) -> Seq<char>
    decreases bytes.len(),
{
    if bytes.len() == 0 {
        Seq::empty()
    } else {
        hex_of(bytes.drop_last()) + seq![
            hex_digit(bytes.last() as int / 16),
            hex_digit(bytes.last() as int % 16),
        ]
    }
}

/// True when `c` is a hex digit of either case.
pub open spec fn is_hex_char(c: char) -> bool {
    ||| 48 <= c as int <= 57
    ||| 65 <= c as int <= 70
    ||| 97 <= c as int <= 102
}

/// Numeric value of a hex digit character of either case.
pub open spec fn hex_char_val(c: char) -> int {
    if 48 <= c as int <= 57 {
        c as int - 48
    } else if 65 <= c as int <= 70 {
        c as int - 55
    } else {
        c as int - 87
    }
}

/// True when `s` is a well-formed hex string: even length, hex digits only.
pub open spec fn is_hex_seq(s: Seq<char>) -> bool {
    &&& s.len() % 2 == 0
    &&& forall|j: int| 0 <= j < s.len() ==> is_hex_char(s[j])
}

/// The bytes a well-formed hex string spells, one per digit pair.
pub open spec fn bytes_of_hex(s: Seq<char>) -> Seq<u8>
    decreases s.len(),
{
    if s.len() < 2 {
        Seq::empty()
    } else {
        bytes_of_hex(s.drop_last().drop_last()).push(
            (hex_char_val(s[s.len() - 2]) * 16 + hex_char_val(s[s.len() - 1])) as u8,
        )
    }
}

/// Relies on hex::encode: lowercase hex text, two digits per byte, most
/// significant digit first.
#[verifier::external_body]
pub fn hex_encode(data: &Vec<u8>) -> (r: String)
    ensures
        r@ == hex_of(data@),
{
    hex::encode(data)
}

/// Relies on hex::decode: it accepts exactly the even-length strings of
/// hex digits (either case) and returns the bytes they spell.
#[verifier::external_body]
pub fn hex_decode(text: &str) -> (r: Result<Vec<u8>, VaultError>)
    ensures
        match r {
            Ok(b) => is_hex_seq(text@) && b@ == bytes_of_hex(text@),
            Err(e) => !is_hex_seq(text@) && e == VaultError::KeyFormat,
        },
{
    match hex::decode(text) {
        Ok(b) => Ok(b),
        Err(_) => Err(VaultError::KeyFormat),
    }
}

/// What base64's standard engine prints for a byte sequence.
pub uninterp spec fn b64_of(bytes: Seq<u8>) -> Seq<char>;

/// Relies on base64's STANDARD engine encode: canonical padded base64 text
/// of the input bytes.
#[verifier::external_body]
pub fn b64_encode(data: &Vec<u8>) -> (r: String)
    ensures
        r@ == b64_of(data@),
{
    base64::Engine::encode(&base64::engine::general_purpose::STANDARD, data)
}

/// Relies on base64's STANDARD engine decode, which requires canonical
/// padding and zero trailing bits: it succeeds exactly on the encodings the
/// engine itself prints, returning the one byte sequence that prints as the
/// input, and fails on every other string.
#[verifier::external_body]
pub fn b64_decode(text: &str) -> (r: Result<Vec<u8>, VaultError>)
    ensures
        match r {
            Ok(b) => text@ == b64_of(b@) && (forall|b2: Seq<u8>| b64_of(b2) == text@ ==> b2 == b@),
            Err(e) => (forall|b2: Seq<u8>| b64_of(b2) != text@) && e == VaultError::Decryption,
        },
{
    match base64::Engine::decode(&base64::engine::general_purpose::STANDARD, text) {
        Ok(b) => Ok(b),
        Err(_) => Err(VaultError::Decryption),
    }
}

/// Relies on String::from_utf8: it succeeds on exactly the valid UTF-8
/// byte sequences, returning the text they encode.
#[verifier::external_body]
pub fn string_from_utf8(bytes: Vec<u8>) -> (r: Result<String, VaultError>)
    ensures
        match r {
            Ok(t) => bytes@ == encode_utf8(t@),
            Err(e) => !valid_utf8(bytes@) && e == VaultError::Encoding,
        },
{
    match String::from_utf8(bytes) {
        Ok(t) => Ok(t),
        Err(_) => Err(VaultError::Encoding),
    }
}

} // verus!
