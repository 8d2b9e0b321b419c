//! Decoding file bytes to text with an encoding fallback: strict UTF-8
//! first, then tolerant UTF-8, then Windows-1252, which never fails.

use vstd::prelude::*;
use vstd::utf8::{valid_utf8, decode_utf8};

verus! {

/// What encoding_rs's UTF-8 `decode` returns on these bytes: the decoded
/// text when there was no malformed sequence, `None` otherwise.
pub uninterp spec fn utf8_tolerant_of(b: Seq<u8>) -> Option<Seq<char>>;

/// What encoding_rs's Windows-1252 `decode` returns on these bytes; every
/// byte sequence decodes.
pub uninterp spec fn w1252_of(b: Seq<u8>) -> Seq<char>;

/// Relies on the standard library's `str::from_utf8`, which succeeds on
/// exactly the valid UTF-8 byte sequences and decodes them.
#[verifier::external_body]
fn strict_utf8(bytes: &Vec<u8>) -> (r: Option<String>)
    ensures
        r is Some <==> valid_utf8(bytes@),
        r matches Some(s) ==> s@ == decode_utf8(bytes@),
{
    match std::str::from_utf8(bytes) {
        Ok(s) => Some(s.to_string()),
        Err(_) => None,
    }
}

/// Relies on encoding_rs's `UTF_8.decode`, which sniffs a byte-order mark
/// and replaces malformed sequences, reporting whether any were found; the
/// result depends on the bytes alone.
#[verifier::external_body]
fn utf8_tolerant(bytes: &Vec<u8>) -> (r: Option<String>)
    ensures
        match utf8_tolerant_of(bytes@) {
            Some(s) => r matches Some(o) && o@ == s,
            None => r is None,
        },
{
    let (cow, _, had_errors) = encoding_rs::UTF_8.decode(bytes);
    if had_errors {
        None
    } else {
        Some(cow.into_owned())
    }
}

/// Relies on encoding_rs's `WINDOWS_1252.decode`, which decodes every byte
/// sequence; the result depends on the bytes alone.
#[verifier::external_body]
fn w1252(bytes: &Vec<u8>) -> (r: String)
    ensures
        r@ == w1252_of(bytes@),
{
    let (cow, _, _) = encoding_rs::WINDOWS_1252.decode(bytes);
    cow.into_owned()
}

/// The text these bytes decode to under the fallback chain.
pub open spec fn decoded_of(b: Seq<u8>) -> Seq<char> {
    if valid_utf8(b) {
        decode_utf8(b)
    } else {
        match utf8_tolerant_of(b) {
            Some(s) => s,
            None => w1252_of(b),
        }
    }
}

/// Decode file bytes to text: strict UTF-8 when the bytes are valid UTF-8,
/// else tolerant UTF-8 when it reports no malformed sequence, else
/// Windows-1252.
pub fn decode_bytes(bytes: &Vec<u8>) -> (r: String)
    ensures
        r@ == decoded_of(bytes@),
{
    if let Some(s) = strict_utf8(bytes) {
        return s;
    }
    if let Some(s) = utf8_tolerant(bytes) {
        return s;
    }
    w1252(bytes)
}

} // verus!
