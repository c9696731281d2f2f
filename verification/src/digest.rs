//! Digest adapter: a uniform `compute(algorithm, input) -> bytes` capability
//! behind which concrete hash algorithms are selected.  New algorithms are
//! added here, as a variant and a `digest_of` arm, without touching the
//! search engine.

use vstd::prelude::*;

verus! {

/// Identifier of a supported digest algorithm.
#[derive(Clone, Copy, PartialEq, Eq, Structural, Debug)]
pub enum Algorithm {
    Md5,
}

/// The MD5 digest of a candidate word: the hash of the characters' UTF-8
/// encoding, a function of the character sequence alone.
pub uninterp spec fn md5_of(s: Seq<char>) -> Seq<u8>;

/// The number of bytes in a digest under the chosen algorithm.
pub open spec fn digest_len(algo: Algorithm) -> nat {
    match algo {
        Algorithm::Md5 => 16,
    }
}

/// The digest of a candidate word under the chosen algorithm.
pub open spec fn digest_of(algo: Algorithm, s: Seq<char>) -> Seq<u8> {
    match algo {
        Algorithm::Md5 => md5_of(s),
    }
}

/// Relies on md5::compute: the MD5 digest of the candidate's UTF-8 bytes,
/// packed as `Digest(pub [u8; 16])`, so always 16 bytes and determined by
/// the character sequence alone.
#[verifier::external_body]
fn md5_digest(candidate: &Vec<char>) -> (r: Vec<u8>)
    ensures
        r@ == md5_of(candidate@),
        r@.len() == 16,
{
    let text: String = candidate.iter().collect();
    md5::compute(text.as_bytes()).0.to_vec()
}

/// Compute the digest of a candidate under the chosen algorithm.
pub fn compute(algo: Algorithm, candidate: &Vec<char>) -> (r: Vec<u8>)
    ensures
        r@ == digest_of(algo, candidate@),
        r@.len() == digest_len(algo),
{
    match algo {
        Algorithm::Md5 => md5_digest(candidate),
    }
}

} // verus!
