//! The privileged hand-off: the checksum that travels with the serialized
//! topic list, its check on the privileged side, and the arguments of the
//! elevated command.
use vstd::prelude::*;
use sha2::Digest;
use vstd::string::StringExecFns;
use crate::text::str_eq;

verus! {

/// The lower-case hex SHA-256 digest of the bytes.
pub uninterp spec fn sha256_hex_of(b: Seq<u8>) -> Seq<char>;

/// Relies on `sha2::Sha256::digest`, formatted as lower-case hex: a function
/// of the bytes alone.
#[verifier::external_body]
fn sha256_hex(b: &[u8]) -> (r: String)
    ensures
        r@ == sha256_hex_of(b@),
{
    format!("{:x}", sha2::Sha256::digest(b))
}

/// The checksum that is passed along with a serialized topic list.
pub fn checksum(buffer: &[u8]) -> (r: String)
    ensures
        r@ == sha256_hex_of(buffer@),
{
    sha256_hex(buffer)
}

/// The hand-off failed its integrity check.
#[derive(Debug, PartialEq, Eq)]
pub enum HandoffError {
    HashMismatch,
}

/// The privileged side accepts a buffer whose digest is `digest`: either no
/// checksum came with it, or the checksum equals the digest exactly.
pub open spec fn accepted(digest: Seq<char>, expected: Option<Seq<char>>) -> bool {
    match expected {
        Some(c) => digest == c,
        None => true,
    }
}

/// Checks a recomputed digest against the checksum passed to the privileged
/// process.
pub fn check_digest(digest: &str, expected: Option<&str>) -> (r: Result<(), HandoffError>)
    ensures
        r is Ok <==> accepted(
            digest@,
            match expected {
                Some(c) => Some(c@),
                None => None,
            },
        ),
        r is Err ==> r == Err::<(), HandoffError>(HandoffError::HashMismatch),
{
    match expected {
        Some(c) => if str_eq(digest, c) {
            Ok(())
        } else {
            Err(HandoffError::HashMismatch)
        },
        None => Ok(()),
    }
}

/// Recomputes the digest of the transferred bytes and checks it against
/// the checksum passed along; a mismatch fails before anything is written.
pub fn verify_transfer(buffer: &[u8], expected: Option<&str>) -> (r: Result<(), HandoffError>)
    ensures
        r is Ok <==> accepted(
            sha256_hex_of(buffer@),
            match expected {
                Some(c) => Some(c@),
                None => None,
            },
        ),
        r is Err ==> r == Err::<(), HandoffError>(HandoffError::HashMismatch),
{
    let digest = sha256_hex(buffer);
    check_digest(digest.as_str(), expected)
}

/// A buffer is accepted with the checksum of its own bytes.
pub proof fn lemma_checksum_round_trip(buffer: Seq<u8>)
    ensures
        accepted(sha256_hex_of(buffer), Some(sha256_hex_of(buffer))),
{
}

/// `refresh -c <checksum> -m <mirror> -f <path>`
pub open spec fn elevation_args_spec(checksum: Seq<char>, mirror: Seq<char>, path: Seq<char>) -> Seq<
    Seq<char>,
> {
    seq!["refresh"@, "-c"@, checksum, "-m"@, mirror, "-f"@, path]
}

/// The arguments with which the elevated copy of the program is started.
pub fn elevation_args(checksum: &str, mirror_url: &str, path: &str) -> (r: Vec<String>)
    ensures
        r.deep_view() == elevation_args_spec(checksum@, mirror_url@, path@),
{
    let mut r: Vec<String> = Vec::new();
    r.push(String::from_str("refresh"));
    r.push(String::from_str("-c"));
    r.push(String::from_str(checksum));
    r.push(String::from_str("-m"));
    r.push(String::from_str(mirror_url));
    r.push(String::from_str("-f"));
    r.push(String::from_str(path));
    assert(r.deep_view() =~= elevation_args_spec(checksum@, mirror_url@, path@));
    r
}

} // verus!
