//! Checksums of configuration values.
//!
//! A checksum is written `{algo}-{hex}`: the algorithm name, a dash,
//! and the lowercase hex digest.  The digests themselves come from the
//! `md5` and `sha2` crates behind trusted wrappers; the hex encoding
//! and formatting are verified here.

use vstd::prelude::*;

use crate::text::{concat_strs, hex_of, str_eq};

verus! {

/// The MD5 digest of a byte string, as named by the `md5` crate.
pub uninterp spec fn md5_digest_of(data: Seq<u8>) -> Seq<u8>;

/// The SHA-256 digest of a byte string, as named by the `sha2` crate.
pub uninterp spec fn sha256_digest_of(data: Seq<u8>) -> Seq<u8>;

/// Relies on `md5::compute`: the digest is sixteen bytes and depends
/// on the input bytes alone.
#[verifier::external_body]
fn md5_digest(data: &[u8]) -> (r: Vec<u8>)
    ensures
        r@ == md5_digest_of(data@),
        r@.len() == 16,
{
    md5::compute(data).0.to_vec()
}

/// Relies on `sha2::Sha256` (via the `Digest` trait): the digest is
/// thirty-two bytes and depends on the input bytes alone.
#[verifier::external_body]
fn sha256_digest(data: &[u8]) -> (r: Vec<u8>)
    ensures
        r@ == sha256_digest_of(data@),
        r@.len() == 32,
{
    <sha2::Sha256 as sha2::Digest>::digest(data).to_vec()
}

/// A pure checksum function from bytes to an `{algo}-{hex}` string.
pub trait Checksummer: Sized {
    /// The checksum string this checksummer assigns to a byte string.
    spec fn checksum_spec(&self, data: Seq<u8>) -> Seq<char>;

    /// Returns the checksum of the given data.
    fn checksum(&self, data: Vec<u8>) -> (r: String)
        ensures
            r@ == self.checksum_spec(data@),
    ;
}

/// Checksums with MD5: `md5-{hex}`.
pub struct Md5Checksummer {}

impl Checksummer for Md5Checksummer {
    open spec fn checksum_spec(&self, data: Seq<u8>) -> Seq<char> {
        "md5-"@ + hex_of(md5_digest_of(data))
    }

    fn checksum(&self, data: Vec<u8>) -> (r: String) {
        let digest = md5_digest(data.as_slice());
        let hex = crate::text::hex_string_of(digest.as_slice());
        concat_strs("md5-", hex.as_str())
    }
}

/// Checksums with SHA-256: `sha256-{hex}`.
pub struct Sha256Checksummer {}

impl Checksummer for Sha256Checksummer {
    open spec fn checksum_spec(&self, data: Seq<u8>) -> Seq<char> {
        "sha256-"@ + hex_of(sha256_digest_of(data))
    }

    fn checksum(&self, data: Vec<u8>) -> (r: String) {
        let digest = sha256_digest(data.as_slice());
        let hex = crate::text::hex_string_of(digest.as_slice());
        concat_strs("sha256-", hex.as_str())
    }
}

/// One of the supported checksummers, picked by name.
pub enum SelectedChecksummer {
    Md5(Md5Checksummer),
    Sha256(Sha256Checksummer),
}

impl Checksummer for SelectedChecksummer {
    open spec fn checksum_spec(&self, data: Seq<u8>) -> Seq<char> {
        match self {
            SelectedChecksummer::Md5(c) => c.checksum_spec(data),
            SelectedChecksummer::Sha256(c) => c.checksum_spec(data),
        }
    }

    fn checksum(&self, data: Vec<u8>) -> (r: String) {
        match self {
            SelectedChecksummer::Md5(c) => c.checksum(data),
            SelectedChecksummer::Sha256(c) => c.checksum(data),
        }
    }
}

/// Picks the checksummer for a checksum type name.
pub fn get_checksummer(checksum_type: &str) -> (r: SelectedChecksummer)
    requires
        checksum_type@ == "md5"@ || checksum_type@ == "sha256"@,
    ensures
        checksum_type@ == "md5"@ ==> r is Md5,
        checksum_type@ == "sha256"@ ==> r is Sha256,
{
    proof {
        reveal_strlit("md5");
        reveal_strlit("sha256");
        assert("md5"@.len() != "sha256"@.len());
    }
    if str_eq(checksum_type, "md5") {
        SelectedChecksummer::Md5(Md5Checksummer {})
    } else {
        SelectedChecksummer::Sha256(Sha256Checksummer {})
    }
}

} // verus!
