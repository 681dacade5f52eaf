use vstd::prelude::*;
use crate::cbmt::{cbmt_root_from_hashes, cbmt_root_spec};
use crate::hashes::blake3_of;
use crate::primitives::{Addr, Hash256};
use crate::token_chain::CovalentChain;
use crate::token_executor::{Executor, committed_bal, committed_roots, run_txs, txs_wf};
use crate::token_mempool::{MemPoolImpl, package_rec, stx_eq};
use crate::token_state::{TokenState, state_trie_entries};
use crate::token_types::{Block, Header, SignedTransaction, enc_header};
use crate::trie::mpt_root_of;

verus! {

/// Seconds between block ticks.
pub const BLOCK_INTERVAL: u64 = 3;

/// The cycle budget of one block.
pub const CYCLE_LIMIT: u64 = 30000000;

/// The producer's running position: the number the next block gets, the hash
/// it chains from, and the root its execution starts at.
pub struct State {
    pub next_number: u64,
    pub prev_hash: Hash256,
    pub state_root: Hash256,
}

/// The token tier's block producer. The trie state, mempool and chain store
/// are handed in by the caller at each tick, as the capabilities the tick
/// works on.
pub struct Consensus {
    pub state: State,
    pub chain_id: u64,
    pub address: Addr,
}

/// The transaction hashes of a block, in order.
pub open spec fn tx_hashes_of(txs: Seq<SignedTransaction>) -> Seq<Seq<u8>> {
    Seq::new(txs.len(), |i: int| txs[i].tx_hash@)
}

impl Consensus {
    pub open spec fn wf(&self) -> bool {
        &&& self.state.prev_hash.wf()
        &&& self.state.state_root.wf()
        &&& self.address.wf()
    }

    /// A fresh producer: the next block is number one, chained from the zero
    /// hash over the zero (empty) state root.
    pub fn new(chain_id: u64, address: Addr) -> (r: Consensus)
        requires
            address.wf(),
        ensures
            r.wf(),
            r.state.next_number == 1,
            r.state.prev_hash.is_zero_spec(),
            r.state.state_root.is_zero_spec(),
            r.chain_id == chain_id,
            r.address@ == address@,
    {
        Consensus {
            state: State {
                next_number: 1,
                prev_hash: Hash256::zero(),
                state_root: Hash256::zero(),
            },
            chain_id,
            address,
        }
    }

    /// One block tick: package under the block budget, execute against the
    /// committed state, assemble the block with the executed state root,
    /// persist it, and advance the producer. `None` reports a trie fault,
    /// which halts production.
    pub fn produce_block(
        &mut self,
        trie_state: &mut TokenState,
        mempool: &MemPoolImpl,
        chain: &mut CovalentChain,
        timestamp: u128,
    ) -> (r: Option<Block>)
        requires
            old(self).wf(),
            old(self).state.next_number < u64::MAX,
            old(trie_state).wf(),
            mempool.wf(),
            old(chain).wf(),
            mempool.entries().len() < 0x10000000,
        ensures
            final(self).wf(),
            final(trie_state).wf(),
            final(chain).wf(),
            (match r {
                Some(b) => {
                    &&& b.header.chain_id == old(self).chain_id
                    &&& b.header.number == old(self).state.next_number
                    &&& b.header.prev_hash@ == old(self).state.prev_hash@
                    &&& b.header.timestamp == timestamp
                    &&& b.header.cycles_limit == CYCLE_LIMIT
                    &&& b.header.proposer@ == old(self).address@
                    &&& b.txs@.len() == package_rec(mempool.entries(), CYCLE_LIMIT, 0).len()
                    &&& (forall|i: int|
                        0 <= i < b.txs@.len() ==> stx_eq(
                            b.txs@[i],
                            package_rec(mempool.entries(), CYCLE_LIMIT, 0)[i],
                        ))
                    &&& b.header.transaction_root@ == cbmt_root_spec(
                        true,
                        tx_hashes_of(b.txs@),
                    )
                    &&& final(trie_state).bal_model() == committed_bal(
                        old(trie_state).bal_model(),
                        run_txs(old(trie_state).bal_model(), b.txs@).1,
                    )
                    &&& final(trie_state).roots_model() == committed_roots(
                        old(trie_state).roots_model(),
                        old(trie_state).bal_model(),
                        run_txs(old(trie_state).bal_model(), b.txs@).1,
                    )
                    &&& b.header.state_root@ == mpt_root_of(
                        state_trie_entries(*final(trie_state)),
                    )
                    &&& final(chain).blocks_m().contains_key(blake3_of(enc_header(b.header)))
                    &&& final(self).state.next_number == b.header.number + 1
                    &&& final(self).state.prev_hash@ == blake3_of(enc_header(b.header))
                    &&& final(self).state.state_root@ == b.header.state_root@
                    &&& final(self).chain_id == old(self).chain_id
                    &&& final(self).address@ == old(self).address@
                },
                None => true,
            }),
    {
        let txs = mempool.package(CYCLE_LIMIT);
        let mut executor = Executor::new();
        proof {
            assert(txs_wf(txs@));
        }
        let resp = match executor.exec(trie_state, &txs) {
            Some(x) => x,
            None => {
                return None;
            },
        };
        let mut hashes: Vec<Hash256> = Vec::new();
        let n = txs.len();
        let mut i: usize = 0;
        while i < n
            invariant
                n == txs@.len(),
                i <= n,
                hashes@.len() == i,
                forall|x: int| 0 <= x < i ==> (#[trigger] hashes@[x])@ == txs@[x].tx_hash@,
                forall|x: int| 0 <= x < i ==> (#[trigger] hashes@[x]).wf(),
                forall|x: int| 0 <= x < txs@.len() ==> (#[trigger] txs@[x]).wf(),
            decreases n - i,
        {
            hashes.push(txs[i].tx_hash.clone());
            i = i + 1;
        }
        let transaction_root = cbmt_root_from_hashes(true, &hashes);
        proof {
            assert(Seq::new(hashes@.len(), |x: int| hashes@[x]@) =~= tx_hashes_of(txs@));
        }
        let header = Header {
            chain_id: self.chain_id,
            number: self.state.next_number,
            prev_hash: self.state.prev_hash.clone(),
            timestamp,
            transaction_root,
            state_root: resp.state_root,
            cycles_limit: CYCLE_LIMIT,
            proposer: self.address.clone(),
        };
        let block = Block { header, txs };
        let copy = block.clone();
        proof {
            crate::token_types::lemma_header_eq_enc(copy.header, block.header);
        }
        chain.save_block(copy);
        let hh = block.header_hash();
        self.state.next_number = self.state.next_number + 1;
        self.state.prev_hash = hh;
        self.state.state_root = block.header.state_root.clone();
        Some(block)
    }
}

} // verus!
