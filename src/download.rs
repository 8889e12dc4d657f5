//! Where a downloaded artifact goes, and whether its content matches the
//! published hash.

use vstd::prelude::*;
use crate::text::{after_last, lower_of, segment_after_last, to_lower};

verus! {

/// What `sha256::digest` returns for these bytes: the hex form of their
/// SHA-256 digest.
pub uninterp spec fn sha256_hex(data: Seq<u8>) -> Seq<char>;

/// Relies on `sha256::digest` over a byte slice: the hex digest is a
/// function of the bytes alone.
#[verifier::external_body]
fn sha256_digest(data: &[u8]) -> (r: String)
    ensures
        r@ == sha256_hex(data@),
{
    sha256::digest(data)
}

/// The name an archive is saved under before it is extracted.
pub open spec fn archive_file_name() -> Seq<char> {
    "temp.zip"@
}

/// How to store a downloaded artifact in its mod's directory.
pub struct DownloadTarget {
    /// The file name inside the mod's directory.
    pub file: String,
    /// Whether the file is a zip archive to extract and then delete.
    pub archive: bool,
}

/// Where the artifact at `url` goes: a link whose extension is `zip` is an
/// archive saved as `temp.zip`; anything else keeps the last segment of its
/// link as its name.
pub fn download_target(url: &str) -> (r: DownloadTarget)
    ensures
        r.archive == (after_last(url@, '.') == "zip"@),
        r.archive ==> r.file@ == archive_file_name(),
        !r.archive ==> r.file@ == after_last(url@, '/'),
{
    let ext = segment_after_last(url, '.');
    let zip = "zip".to_owned();
    if ext == zip {
        DownloadTarget { file: "temp.zip".to_owned(), archive: true }
    } else {
        DownloadTarget { file: segment_after_last(url, '/'), archive: false }
    }
}

/// Whether a hex digest matches the published one, ignoring case.
pub fn hex_digests_match(computed: &str, published: &str) -> (r: bool)
    ensures
        r == (lower_of(computed@) == lower_of(published@)),
{
    let a = to_lower(computed);
    let b = to_lower(published);
    a == b
}

/// Whether the downloaded bytes hash to the published digest, ignoring case.
pub fn digest_matches(data: &[u8], published: &str) -> (r: bool)
    ensures
        r == (lower_of(sha256_hex(data@)) == lower_of(published@)),
{
    let computed = sha256_digest(data);
    hex_digests_match(computed.as_str(), published)
}

/// Whether two files differ, judged by their SHA-256 digests.
pub fn digests_differ(a: &[u8], b: &[u8]) -> (r: bool)
    ensures
        r == (sha256_hex(a@) != sha256_hex(b@)),
{
    let da = sha256_digest(a);
    let db = sha256_digest(b);
    !(da == db)
}

/// What to do with a download once its hash was checked.
#[derive(Clone, Copy, Debug, PartialEq, Eq, Structural)]
pub enum HashVerdict {
    /// The content matches: keep it.
    Accept,
    /// The first download does not match: fetch it once more.
    Retry,
    /// The second download does not match either: give up.
    Reject,
}

/// A match is accepted; a first mismatch is fetched again, a second one is
/// rejected.
pub fn hash_verdict(matches: bool, retried: bool) -> (r: HashVerdict)
    ensures
        matches ==> r == HashVerdict::Accept,
        !matches && !retried ==> r == HashVerdict::Retry,
        !matches && retried ==> r == HashVerdict::Reject,
{
    if matches {
        HashVerdict::Accept
    } else if retried {
        HashVerdict::Reject
    } else {
        HashVerdict::Retry
    }
}

} // verus!
