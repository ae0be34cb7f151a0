//! The crate's few calls into outside libraries, each behind a small
//! trusted wrapper whose contract states what the library's source and
//! documentation promise.

use vstd::prelude::*;

use sha3::Digest;

verus! {

/// The SHA3-256 digest of a byte string.  The digest itself is not
/// written out here: it is a fixed function of the input bytes, named so
/// that contracts can speak of it.
pub uninterp spec fn sha3_256_of(data: Seq<u8>) -> Seq<u8>;

/// Relies on sha3's `Sha3_256` through the digest traits: the digest
/// depends on the input bytes alone and is 32 bytes long (its output size
/// is `U32`).
#[verifier::external_body]
pub(crate) fn sha3_256(data: &[u8]) -> (r: Vec<u8>)
    ensures
        r@ == sha3_256_of(data@),
        r@.len() == 32,
{
    sha3::Sha3_256::digest(data).to_vec()
}

/// Relies on uuid's `Uuid::new_v4` and its `Display` form: a random
/// identifier rendered as a hyphenated string of 36 characters.  The
/// value is random, so nothing more is promised of it.
#[verifier::external_body]
pub(crate) fn fresh_guid() -> (r: String)
    ensures
        r@.len() == 36,
{
    uuid::Uuid::new_v4().to_string()
}

/// Relies on chrono's `Utc::now`, rendered with its `Display` form.  The
/// value depends on the clock, so nothing is promised of it.
#[verifier::external_body]
pub(crate) fn now_utc_string() -> String {
    chrono::offset::Utc::now().to_string()
}

/// Whether a string lies in humantime's duration grammar.  The grammar is
/// not written out here; membership depends on the characters alone.
pub uninterp spec fn parses_as_duration(s: Seq<char>) -> bool;

/// Relies on humantime's `parse_duration`: whether the string parses as a
/// duration depends on the characters alone.
#[verifier::external_body]
pub(crate) fn duration_parses(s: &str) -> (r: bool)
    ensures
        r == parses_as_duration(s@),
{
    humantime::parse_duration(s).is_ok()
}

} // verus!
