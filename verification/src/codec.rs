//! The encodings the library takes from outside crates: the md5 legacy
//! token digest, the sha256 cover key digest, base64 in both alphabets,
//! form-urlencoding of query pairs, and fresh version-4 uuids. Each call
//! stands behind one trusted wrapper whose contract names exactly what its
//! crate's documentation promises; everything downstream of the calls is
//! verified.

use base64::Engine;
use sha2::Digest;
use vstd::prelude::*;
use crate::assoc::assoc_view;
use crate::fingerprint::{bytes_to_hex, hex_of_bytes};
use crate::strutil::concat2;

verus! {

/// The md5 digest of a string's bytes: sixteen bytes, a function of the
/// input alone.
pub uninterp spec fn md5_of(s: Seq<char>) -> Seq<u8>;

/// Relies on md5::compute: the 128-bit md5 digest of the input bytes.
#[verifier::external_body]
fn md5_digest(data: &str) -> (r: Vec<u8>)
    ensures
        r@ == md5_of(data@),
        r@.len() == 16,
{
    md5::compute(data.as_bytes()).0.to_vec()
}

/// The sha256 digest of a string's bytes: thirty-two bytes, a function of
/// the input alone.
pub uninterp spec fn sha256_of(s: Seq<char>) -> Seq<u8>;

/// Relies on sha2::Sha256::digest: the 256-bit sha256 digest of the input
/// bytes.
#[verifier::external_body]
fn sha256_digest(data: &str) -> (r: Vec<u8>)
    ensures
        r@ == sha256_of(data@),
        r@.len() == 32,
{
    sha2::Sha256::digest(data.as_bytes()).to_vec()
}

/// Standard base64 (RFC 4648 section 4) with padding, as a character
/// sequence.
pub uninterp spec fn b64_of(b: Seq<u8>) -> Seq<char>;

/// Relies on base64's STANDARD engine: four output characters for every
/// started group of three input bytes, padded to a multiple of four.
#[verifier::external_body]
pub(crate) fn b64_standard(b: &Vec<u8>) -> (r: String)
    requires
        b@.len() / 3 < usize::MAX / 4,
    ensures
        r@ == b64_of(b@),
        r@.len() == 4 * ((b@.len() + 2) / 3),
{
    base64::engine::general_purpose::STANDARD.encode(b.as_slice())
}

/// URL-safe base64 (RFC 4648 section 5) without padding, as a character
/// sequence.
pub uninterp spec fn b64_url_of(b: Seq<u8>) -> Seq<char>;

/// Relies on base64's URL_SAFE_NO_PAD engine: the URL-safe alphabet
/// (`A`-`Z`, `a`-`z`, `0`-`9`, `-`, `_`) holds no slash and no padding.
#[verifier::external_body]
fn b64_url_nopad(b: &Vec<u8>) -> (r: String)
    requires
        b@.len() / 3 < usize::MAX / 4,
    ensures
        r@ == b64_url_of(b@),
        r@.len() == 4 * (b@.len() / 3) + (if b@.len() % 3 == 0 {
            0int
        } else {
            b@.len() % 3 + 1int
        }),
        forall|i: int| 0 <= i < r@.len() ==> r@[i] != '/' && r@[i] != '=',
{
    base64::engine::general_purpose::URL_SAFE_NO_PAD.encode(b.as_slice())
}

/// The application/x-www-form-urlencoded rendering of a pair list, a
/// function of the pairs alone.
pub uninterp spec fn urlencoded_of(q: Seq<(Seq<char>, Seq<char>)>) -> Seq<char>;

/// Relies on serde_urlencoded::to_string: `k=v` joined by `&`, every key and
/// value percent-escaped; serialization of string pairs itself never fails.
/// An empty list renders as the empty string.
#[verifier::external_body]
pub(crate) fn urlencode_pairs(q: &Vec<(String, String)>) -> (r: String)
    ensures
        r@ == urlencoded_of(assoc_view(q@)),
        q@.len() == 0 ==> r@.len() == 0,
{
    serde_urlencoded::to_string(q).unwrap_or_default()
}

/// Relies on uuid::Uuid::new_v4 and its hyphenated Display form: 36
/// characters; the value is random, so nothing relates it to anything.
#[verifier::external_body]
pub(crate) fn new_uuid_hyphenated() -> (r: String)
    ensures
        r@.len() == 36,
{
    uuid::Uuid::new_v4().to_string()
}

/// Relies on uuid::Uuid::new_v4 and its simple (hyphen-free) form: 32
/// characters; the value is random, so nothing relates it to anything.
#[verifier::external_body]
pub(crate) fn new_uuid_simple() -> (r: String)
    ensures
        r@.len() == 32,
{
    uuid::Uuid::new_v4().simple().to_string()
}

/// The legacy authentication token: the md5 digest of password and salt,
/// rendered as 32 hex digits. The raw password never outlives this call.
pub open spec fn legacy_token_of(password: Seq<char>, salt: Seq<char>) -> Seq<char> {
    hex_of_bytes(md5_of(password + salt))
}

/// Executable [`legacy_token_of`].
pub fn legacy_token(password: &str, salt: &str) -> (r: String)
    ensures
        r@ == legacy_token_of(password@, salt@),
{
    let joined = concat2(password, salt);
    let digest = md5_digest(joined.as_str());
    bytes_to_hex(&digest)
}

/// The registered cover key: the URL-safe base64 of the sha256 digest of the
/// source file's path — content-independent, stable for the process.
pub open spec fn cover_key_of(path: Seq<char>) -> Seq<char> {
    b64_url_of(sha256_of(path))
}

/// Executable [`cover_key_of`]. The key never holds a slash, so the cover
/// route always accepts it.
pub fn cover_key(path: &str) -> (r: String)
    ensures
        r@ == cover_key_of(path@),
        r@.len() == 43,
        forall|i: int| 0 <= i < r@.len() ==> r@[i] != '/',
{
    let digest = sha256_digest(path);
    b64_url_nopad(&digest)
}

} // verus!
