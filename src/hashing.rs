use vstd::prelude::*;

use crate::model::Txid;

verus! {

/// The SHA-256 digest of `data`.
pub uninterp spec fn sha256_of(data: Seq<u8>) -> Seq<u8>;

/// Relies on sha2's `Sha256::digest`: the SHA-256 digest of the bytes, which
/// depends on them alone.
#[verifier::external_body]
fn sha256(data: &[u8]) -> (r: [u8; 32])
    ensures
        r@ == sha256_of(data@),
{
    <sha2::Sha256 as sha2::Digest>::digest(data).into()
}

/// The transaction identifier of a raw transaction: SHA-256 applied to the
/// whole buffer, then to that digest.
pub fn hash_raw_transaction(raw_transaction: &[u8]) -> (r: Txid)
    ensures
        r@ == sha256_of(sha256_of(raw_transaction@)),
{
    let first = sha256(raw_transaction);
    let second = sha256(first.as_slice());
    Txid::from_bytes(second)
}

} // verus!
