//! Tarball verification: hashing downloaded bytes and holding the digest
//! against the registry-declared checksum.
//!
//! Fetching the bytes is the caller's business; this module decides whether
//! they may be persisted.  Unverified bytes are never accepted: the check
//! succeeds exactly when the digest matches.

use vstd::prelude::*;
use sha2::Digest;

verus! {

/// Why a download failed.
#[derive(Debug)]
pub enum DownloadError {
    /// A non-success response or transport failure.
    HttpError(String),
    /// A filesystem failure while persisting the bytes.
    IoError(String),
    /// The fetched bytes do not hash to the declared checksum.
    ChecksumError,
}

/// What SHA-256 digests the data to.  The algorithm is not restated here:
/// the digest is computed by the sha2 crate and only named.
pub uninterp spec fn sha256_of(data: Seq<u8>) -> Seq<u8>;

/// Relies on sha2::Sha256 (via the Digest trait): the digest depends on the
/// input bytes alone and is 32 bytes long.
#[verifier::external_body]
fn sha256_digest(data: &[u8]) -> (r: Vec<u8>)
    ensures
        r@ == sha256_of(data@),
        r@.len() == 32,
{
    sha2::Sha256::digest(data).to_vec()
}

/// The lowercase hex digit of a nibble.
pub open spec fn hex_digit(n: int) -> char {
    if n < 10 {
        ((48 + n) as u8) as char
    } else {
        ((87 + n) as u8) as char
    }
}

/// The lowercase hex encoding of a byte string: two digits per byte, high
/// nibble first.
pub open spec fn hex_of(b: Seq<u8>) -> Seq<char> {
    Seq::new(
        b.len() * 2,
        |i: int|
            if i % 2 == 0 {
                hex_digit((b[i / 2] as int) / 16)
            } else {
                hex_digit((b[i / 2] as int) % 16)
            },
    )
}

/// Relies on hex::encode: two lowercase hex digits per byte, high nibble
/// first.
#[verifier::external_body]
fn hex_encode(data: &[u8]) -> (r: String)
    ensures
        r@ == hex_of(data@),
{
    hex::encode(data)
}

/// The SHA-256 digest of `data`, hex encoded in lowercase.
pub fn compute_sha256(data: &[u8]) -> (r: String)
    ensures
        r@ == hex_of(sha256_of(data@)),
{
    let digest = sha256_digest(data);
    hex_encode(digest.as_slice())
}

/// An ASCII uppercase letter folded to lowercase; anything else unchanged.
pub open spec fn lower_char(c: char) -> char {
    if 'A' <= c && c <= 'Z' {
        (((c as u32) + 32) as u8) as char
    } else {
        c
    }
}

/// Case folding of a whole string.
pub open spec fn lower_str(s: Seq<char>) -> Seq<char> {
    s.map_values(|c: char| lower_char(c))
}

/// The declared checksum matches the data: its lowercase form equals the
/// lowercase hex encoding of the data's SHA-256 digest.
pub open spec fn checksum_matches(data: Seq<u8>, expected: Seq<char>) -> bool {
    lower_str(expected) == hex_of(sha256_of(data))
}

/// Folds one character to lowercase.
fn lower_char_exec(c: char) -> (r: char)
    ensures
        r == lower_char(c),
{
    let n = c as u32;
    if 65 <= n && n <= 90 {
        proof {
            vstd::utf8::char_u32_cast(c, n);
        }
        ((n + 32) as u8) as char
    } else {
        proof {
            vstd::utf8::char_u32_cast(c, n);
            if 'A' <= c && c <= 'Z' {
                assert(65 <= c as u32 <= 90);
            }
        }
        c
    }
}

/// Decides `checksum_matches`, comparing hex digits case-insensitively.
pub fn verify_checksum(data: &[u8], expected: &str) -> (r: bool)
    ensures
        r == checksum_matches(data@, expected@),
{
    let computed = compute_sha256(data);
    let computed = computed.as_str();
    let clen = computed.unicode_len();
    let elen = expected.unicode_len();
    if clen != elen {
        return false;
    }
    let mut i: usize = 0;
    while i < elen
        invariant
            i <= elen,
            elen == expected@.len(),
            clen == elen,
            computed@ == hex_of(sha256_of(data@)),
            clen == computed@.len(),
            forall|k: int| 0 <= k < i ==> lower_char(#[trigger] expected@[k]) == computed@[k],
        decreases elen - i,
    {
        let e = lower_char_exec(expected.get_char(i));
        let c = computed.get_char(i);
        if e != c {
            proof {
                assert(lower_str(expected@)[i as int] != computed@[i as int]);
            }
            return false;
        }
        i += 1;
    }
    proof {
        assert(lower_str(expected@) =~= computed@);
    }
    true
}

/// The checking half of a tarball download: fetched bytes may be persisted
/// exactly when their digest matches the registry-declared checksum.  On a
/// mismatch the caller gets `ChecksumError` and must write nothing.
pub fn verify_download(data: &Vec<u8>, expected_sha: &str) -> (r: Result<(), DownloadError>)
    ensures
        match r {
            Ok(u) => checksum_matches(data@, expected_sha@),
            Err(e) => !checksum_matches(data@, expected_sha@) && e is ChecksumError,
        },
{
    if verify_checksum(data.as_slice(), expected_sha) {
        Ok(())
    } else {
        Err(DownloadError::ChecksumError)
    }
}

} // verus!
