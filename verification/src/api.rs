use vstd::prelude::*;
use crate::primitives::{Addr, Hash256};
use crate::token_chain::CovalentChain;
use crate::token_mempool::{AdmitError, MemPoolImpl, verify_spec};
use crate::token_state::{TokenState, get_balance, state_bal};
use crate::token_types::{Block, SignedTransaction, TokenBalance};

verus! {

/// The served surface of the token tier: the transport hands decoded values
/// in, and these four methods answer them from the mempool, the chain store
/// and the committed state.
pub struct RpcImpl {
    pub trie_state: TokenState,
    pub chain: CovalentChain,
    pub mempool: MemPoolImpl,
}

impl RpcImpl {
    pub open spec fn wf(&self) -> bool {
        self.trie_state.wf() && self.chain.wf() && self.mempool.wf()
    }

    pub fn new(trie_state: TokenState, chain: CovalentChain, mempool: MemPoolImpl) -> (r: RpcImpl)
        requires
            trie_state.wf(),
            chain.wf(),
            mempool.wf(),
        ensures
            r.wf(),
            r.trie_state == trie_state,
            r.chain == chain,
            r.mempool == mempool,
    {
        RpcImpl { trie_state, chain, mempool }
    }

    /// Admit a transaction into the pool; an admission failure is the
    /// caller's error.
    pub fn send_transaction(&mut self, stx: SignedTransaction) -> (r: Result<(), AdmitError>)
        requires
            old(self).wf(),
            stx.raw.wf(),
        ensures
            final(self).wf(),
            r == verify_spec(old(self).mempool.id(), stx),
            final(self).trie_state == old(self).trie_state,
            final(self).chain == old(self).chain,
    {
        self.mempool.insert(stx)
    }

    /// The block the chain filed under a number, if any.
    pub fn get_block_by_number(&self, number: u64) -> (r: Option<&Block>)
        requires
            self.wf(),
        ensures
            (match r {
                Some(b) => self.chain.numbers_m().contains_key(crate::encode::le8(number))
                    && self.chain.blocks_m().contains_key(
                    self.chain.numbers_m()[crate::encode::le8(number)]@,
                ) && *b == self.chain.blocks_m()[self.chain.numbers_m()[crate::encode::le8(number)]@],
                None => !self.chain.numbers_m().contains_key(crate::encode::le8(number))
                    || !self.chain.blocks_m().contains_key(
                    self.chain.numbers_m()[crate::encode::le8(number)]@,
                ),
            }),
    {
        self.chain.get_block_by_number(number)
    }

    /// The transaction the chain filed under a hash, if any.
    pub fn get_transaction_by_hash(&self, hash: &Hash256) -> (r: Option<&SignedTransaction>)
        requires
            self.wf(),
        ensures
            (match r {
                Some(t) => self.chain.txs_m().contains_key(hash@) && *t
                    == self.chain.txs_m()[hash@],
                None => !self.chain.txs_m().contains_key(hash@),
            }),
    {
        self.chain.get_tx_by_hash(hash)
    }

    /// The committed balance of an address for a token; the zero balance for
    /// an account or token never touched.
    pub fn get_balance(&self, address: &Addr, token_id: &Hash256) -> (r: TokenBalance)
        requires
            self.wf(),
        ensures
            (r.locked.val(), r.active.val()) == state_bal(
                self.trie_state.bal_model(),
                address@,
                token_id@,
            ),
    {
        get_balance(&self.trie_state, address, token_id)
    }
}

} // verus!
