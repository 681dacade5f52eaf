use vstd::prelude::*;
use crate::primitives::Hash256;
use sha3::Digest;

verus! {

/// The Blake3 digest of a byte string; the token tier's hash function.
pub uninterp spec fn blake3_of(data: Seq<u8>) -> Seq<u8>;

/// The personalized Blake2b-256 digest of a byte string; the channel tier's
/// hash function. The 14-byte personalization tag is shared by every producer
/// and verifier of these digests.
pub uninterp spec fn blake2b_of(data: Seq<u8>) -> Seq<u8>;

/// The Keccak-256 digest of a byte string, used to derive an address from an
/// uncompressed public key.
pub uninterp spec fn keccak_of(data: Seq<u8>) -> Seq<u8>;

/// Relies on blake3::hash: a 32-byte digest that depends on the input bytes
/// alone.
#[verifier::external_body]
pub(crate) fn blake3_bytes(data: &Vec<u8>) -> (r: Vec<u8>)
    ensures
        r@ == blake3_of(data@),
        r@.len() == 32,
{
    blake3::hash(data.as_slice()).as_bytes().to_vec()
}

/// Relies on blake2b_ref::Blake2bBuilder: a 32-byte personalized Blake2b
/// digest that depends on the input bytes alone.
#[verifier::external_body]
pub(crate) fn blake2b_bytes(data: &Vec<u8>) -> (r: Vec<u8>)
    ensures
        r@ == blake2b_of(data@),
        r@.len() == 32,
{
    let mut buf = [0u8; 32];
    let mut state = blake2b_ref::Blake2bBuilder::new(32).personal(b"zk pika! pi~~~").build();
    state.update(data.as_slice());
    state.finalize(&mut buf);
    buf.to_vec()
}

/// Relies on sha3::Keccak256: a 32-byte Keccak digest that depends on the
/// input bytes alone.
#[verifier::external_body]
pub(crate) fn keccak_bytes(data: &Vec<u8>) -> (r: Vec<u8>)
    ensures
        r@ == keccak_of(data@),
        r@.len() == 32,
{
    sha3::Keccak256::digest(data.as_slice()).to_vec()
}

/// The token tier's hasher, a thin face over Blake3.
pub struct TokenHasher;

impl TokenHasher {
    /// Digest of a byte string as a typed 32-byte hash.
    pub fn digest_(input: &Vec<u8>) -> (r: Hash256)
        ensures
            r.wf(),
            r@ == blake3_of(input@),
    {
        let bytes = blake3_bytes(input);
        Hash256::from_bytes(bytes)
    }
}

/// Digest of a byte string as a typed 32-byte channel-tier hash.
pub fn blake2b_hash(input: &Vec<u8>) -> (r: Hash256)
    ensures
        r.wf(),
        r@ == blake2b_of(input@),
{
    let bytes = blake2b_bytes(input);
    Hash256::from_bytes(bytes)
}

} // verus!
