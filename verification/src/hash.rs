//! SHA-256 of the installed ROM files, computed by the `sha2` crate.

use sha2::Digest;
use sha2::Sha256;
use vstd::prelude::*;

verus! {

/// The `sha2` hasher. Its state is opaque; what it has been fed is named below.
#[verifier::external_type_specification]
#[verifier::external_body]
pub struct ExSha256(Sha256);

/// The bytes that a hasher has been fed since it was created or last reset.
pub uninterp spec fn sha256_fed(h: Sha256) -> Seq<u8>;

/// The SHA-256 digest of `data`.
pub uninterp spec fn sha256_of(data: Seq<u8>) -> Seq<u8>;

/// `<Sha256 as Digest>::new`: a hasher that has been fed nothing.
#[verifier::external_body]
pub(crate) fn sha256_new() -> (h: Sha256)
    ensures
        sha256_fed(h) == Seq::<u8>::empty(),
{
    Sha256::new()
}

/// `<Sha256 as Digest>::update`: feeds `data` to the hasher.
#[verifier::external_body]
pub(crate) fn sha256_update(h: &mut Sha256, data: &[u8])
    ensures
        sha256_fed(*final(h)) == sha256_fed(*old(h)) + data@,
{
    h.update(data)
}

/// `<Sha256 as Digest>::finalize_reset`: the digest of everything fed, after
/// which the hasher starts over.
#[verifier::external_body]
pub(crate) fn sha256_finalize_reset(h: &mut Sha256) -> (d: Vec<u8>)
    ensures
        d@ == sha256_of(sha256_fed(*old(h))),
        d@.len() == 32,
        sha256_fed(*final(h)) == Seq::<u8>::empty(),
{
    h.finalize_reset().to_vec()
}

} // verus!
