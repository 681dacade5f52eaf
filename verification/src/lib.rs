//! A two-tier off-chain settlement stack. The token tier keeps per-account,
//! per-token balances in a Merkle Patricia trie and advances them by signed
//! token-action transactions; the channel tier keeps payment channels in a
//! sparse merkle tree and advances them by co-signed state updates. Each
//! tier packages transactions from its mempool on a fixed cadence, executes
//! them against the committed state, derives the cryptographic roots, and
//! persists the block in its chain store.

use vstd::prelude::*;

pub mod api;
pub mod cbmt;
pub mod channel_chain;
pub mod channel_consensus;
pub mod channel_executor;
pub mod channel_mempool;
pub mod channel_types;
pub mod encode;
pub mod genesis;
pub mod hashes;
pub mod omap;
pub mod oracle;
pub mod primitives;
pub mod relay;
pub mod relayer;
pub mod settlement;
pub mod smt;
pub mod token_chain;
pub mod token_consensus;
pub mod token_executor;
pub mod token_mempool;
pub mod token_state;
pub mod token_types;
pub mod trie;
pub mod wallet;

verus! {


/// Little-endian byte encoding of a 64-bit number, used as the key of the
/// number-to-hash index in the chain store.
pub fn u64_le_bytes(input: u64) -> (r: Vec<u8>)
    ensures
        r@.len() == 8,
        forall|i: int| 0 <= i < 8 ==> r@[i] == ((input >> (8 * i as u64)) & 0xff) as u8,
{
    let mut buf: Vec<u8> = Vec::new();
    let mut i: u64 = 0;
    while i < 8
        invariant
            i <= 8,
            buf@.len() == i,
            forall|j: int| 0 <= j < i ==> buf@[j] == ((input >> (8 * j as u64)) & 0xff) as u8,
        decreases 8 - i,
    {
        buf.push(((input >> (8 * i)) & 0xff) as u8);
        i = i + 1;
    }
    buf
}

} // verus!
