//! Hashing, encoding, compression and identifiers, taken from outside crates.
//! Each outside call stands in one small trusted function below; what the
//! library computes from the results is verified.
use vstd::prelude::*;
use crate::text::{hex_lower, hex_text, starts_with};
use sha1::Digest;
use base64::Engine;
use std::io::{Read, Write};

verus! {

/// The SHA-1 digest of a byte string, as the `sha1` crate computes it.
pub uninterp spec fn sha1_of(data: Seq<u8>) -> Seq<u8>;

/// What the `base64` crate's standard engine decodes from the given text,
/// `None` when the text is not valid standard base64.
pub uninterp spec fn base64_decoded(text: Seq<char>) -> Option<Seq<u8>>;

/// The gzip stream that `flate2::write::GzEncoder` at the default level
/// produces for `data`, `None` when the encoder reports an error.
pub uninterp spec fn gzip_of(data: Seq<u8>) -> Option<Seq<u8>>;

/// What `flate2::read::GzDecoder` reads out of `data`, `None` when the
/// decoder reports an error.
pub uninterp spec fn gunzip_of(data: Seq<u8>) -> Option<Seq<u8>>;

/// Whether `bcrypt::verify` accepts `password` against `hash`; `None` when
/// the hash cannot be read.
pub uninterp spec fn bcrypt_verdict(password: Seq<char>, hash: Seq<char>) -> Option<bool>;

/// Lower-case hexadecimal digit.
pub open spec fn is_hex_digit(c: char) -> bool {
    (48 <= (c as u32) <= 57) || (97 <= (c as u32) <= 102)
}

/// The hyphenated text form of a UUID, as `Uuid`'s `Display` writes it:
/// 36 characters, dashes at positions 8, 13, 18 and 23, lower-case
/// hexadecimal digits everywhere else.
pub open spec fn is_uuid_text(s: Seq<char>) -> bool {
    &&& s.len() == 36
    &&& forall|i: int|
        0 <= i < 36 ==> if i == 8 || i == 13 || i == 18 || i == 23 {
            #[trigger] s[i] == '-'
        } else {
            is_hex_digit(s[i])
        }
}

/// The value of a lower-case hexadecimal digit.
pub open spec fn hex_digit_value(c: char) -> nat {
    if 48 <= (c as u32) <= 57 {
        ((c as u32) - 48) as nat
    } else {
        ((c as u32) - 87) as nat
    }
}

/// The number that a string of hexadecimal digits writes, most significant
/// digit first.
pub open spec fn hex_number(s: Seq<char>) -> nat
    decreases s.len(),
{
    if s.len() == 0 {
        0
    } else {
        hex_number(s.drop_last()) * 16 + hex_digit_value(s.last())
    }
}

/// The 128-bit value `uuid::Uuid::parse_str` reads from the text, `None`
/// when the text is not a UUID in one of the forms it accepts.
pub uninterp spec fn uuid_value_of(text: Seq<char>) -> Option<u128>;

/// The text that opens every hash `bcrypt::hash` makes at `DEFAULT_COST`.
pub open spec fn bcrypt_default_prefix() -> Seq<char> {
    seq!['$', '2', 'b', '$', '1', '2', '$']
}

/// `sha1::Sha1::digest`: the 20-byte SHA-1 digest of `data`.
#[verifier::external_body]
pub(crate) fn sha1_digest(data: &[u8]) -> (d: Vec<u8>)
    ensures
        d@ == sha1_of(data@),
        d@.len() == 20,
{
    sha1::Sha1::digest(data).to_vec()
}

/// `base64::engine::general_purpose::STANDARD.decode`.
#[verifier::external_body]
pub(crate) fn base64_decode(text: &str) -> (r: Option<Vec<u8>>)
    ensures
        match r {
            Some(v) => base64_decoded(text@) == Some(v@),
            None => base64_decoded(text@) is None,
        },
{
    base64::engine::general_purpose::STANDARD.decode(text).ok()
}

/// `flate2::write::GzEncoder` over a `Vec`, at the default level: writes
/// `data` and finishes the stream. Reading the stream back with `GzDecoder`
/// gives `data` again.
#[verifier::external_body]
pub(crate) fn gzip(data: &[u8]) -> (r: Option<Vec<u8>>)
    ensures
        match r {
            Some(v) => gzip_of(data@) == Some(v@) && gunzip_of(v@) == Some(data@),
            None => gzip_of(data@) is None,
        },
{
    let mut encoder = flate2::write::GzEncoder::new(Vec::new(), flate2::Compression::default());
    match encoder.write_all(data) {
        Ok(()) => encoder.finish().ok(),
        Err(_) => None,
    }
}

/// `flate2::read::GzDecoder` reading `data` to its end.
#[verifier::external_body]
pub(crate) fn gunzip(data: &[u8]) -> (r: Option<Vec<u8>>)
    ensures
        match r {
            Some(v) => gunzip_of(data@) == Some(v@),
            None => gunzip_of(data@) is None,
        },
{
    let mut decoder = flate2::read::GzDecoder::new(data);
    let mut out = Vec::new();
    match decoder.read_to_end(&mut out) {
        Ok(_) => Some(out),
        Err(_) => None,
    }
}

/// `uuid::Uuid::new_v4` written as text. The value is random; what holds of
/// every outcome is its hyphenated form.
#[verifier::external_body]
pub(crate) fn fresh_uuid_text() -> (s: String)
    ensures
        is_uuid_text(s@),
{
    uuid::Uuid::new_v4().to_string()
}

/// `uuid::Uuid::parse_str`, taken as its `as_u128` value. Of the
/// hyphenated lower-case form the parser reads the 32 hexadecimal digits,
/// most significant first; other accepted forms are left to the name.
#[verifier::external_body]
pub(crate) fn parse_uuid(text: &str) -> (r: Option<u128>)
    ensures
        r == uuid_value_of(text@),
        is_uuid_text(text@) ==> r == Some(hex_number(crate::text::without_char(text@, '-')) as u128),
{
    match uuid::Uuid::parse_str(text) {
        Ok(u) => Some(u.as_u128()),
        Err(_) => None,
    }
}

#[verifier::external_type_specification]
#[verifier::external_body]
pub struct ExBcryptError(bcrypt::BcryptError);

/// `bcrypt::hash` at `bcrypt::DEFAULT_COST`. The salt is random, so of a
/// success only the hash's leading version-and-cost text is stated, and
/// that `bcrypt::verify` accepts the same password against it (it hashes
/// the password again with the salt and cost the hash carries).
#[verifier::external_body]
pub(crate) fn bcrypt_hash(password: &str) -> (r: Result<String, bcrypt::BcryptError>)
    ensures
        r matches Ok(h) ==> starts_with(h@, bcrypt_default_prefix()),
        r matches Ok(h) ==> bcrypt_verdict(password@, h@) == Some(true),
{
    bcrypt::hash(password, bcrypt::DEFAULT_COST)
}

/// `bcrypt::verify`.
#[verifier::external_body]
pub(crate) fn bcrypt_verify(password: &str, hash: &str) -> (r: Result<bool, bcrypt::BcryptError>)
    ensures
        match r {
            Ok(b) => bcrypt_verdict(password@, hash@) == Some(b),
            Err(_) => bcrypt_verdict(password@, hash@) is None,
        },
{
    bcrypt::verify(password, hash)
}

/// The content hash Rig records for a payload: lower-case hexadecimal SHA-1.
pub open spec fn content_hash_of(data: Seq<u8>) -> Seq<char> {
    hex_lower(sha1_of(data))
}

/// The lower-case hexadecimal SHA-1 of `data`.
pub fn content_hash(data: &[u8]) -> (h: String)
    ensures
        h@ == content_hash_of(data@),
{
    let d = sha1_digest(data);
    hex_text(&d)
}

} // verus!
