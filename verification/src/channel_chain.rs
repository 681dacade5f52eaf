use vstd::prelude::*;
use crate::channel_types::{
    Block, NumberHash, SignedTransaction, TransactionReceipt, c_block_eq, enc_c_header,
    enc_c_raw_tx,
};
use crate::encode::le8;
use crate::hashes::{blake2b_hash, blake2b_of};
use crate::omap::{OMap, entries_map, lemma_entries_map_domain};
use crate::primitives::{Hash256, clone_bytes};

verus! {

/// Derive a namespaced store key: the digest of a prefix tag and the key's
/// own 32-byte digest.
pub fn key(prefix: &Vec<u8>, key_hash: &Hash256) -> (r: Hash256)
    ensures
        r.wf(),
        r@ == blake2b_of(prefix@ + key_hash@),
{
    let mut bytes = clone_bytes(prefix);
    crate::encode::push_all(&mut bytes, &key_hash.bytes);
    blake2b_hash(&bytes)
}

/// The channel tier's chain store: blocks by hash, a number-to-hash index,
/// transactions and receipts by transaction hash, and the tip pointer.
pub struct ChannelChain {
    blocks: OMap<Block>,
    number_index: OMap<Hash256>,
    txs: OMap<SignedTransaction>,
    receipts: OMap<TransactionReceipt>,
    tip: Option<Hash256>,
}

impl ChannelChain {
    pub closed spec fn blocks_m(&self) -> Map<Seq<u8>, Block> {
        entries_map(self.blocks.entries())
    }

    pub closed spec fn numbers_m(&self) -> Map<Seq<u8>, Hash256> {
        entries_map(self.number_index.entries())
    }

    pub closed spec fn txs_m(&self) -> Map<Seq<u8>, SignedTransaction> {
        entries_map(self.txs.entries())
    }

    pub closed spec fn receipts_m(&self) -> Map<Seq<u8>, TransactionReceipt> {
        entries_map(self.receipts.entries())
    }

    pub closed spec fn tip_spec(&self) -> Option<Hash256> {
        self.tip
    }

    pub closed spec fn wf(&self) -> bool {
        &&& self.blocks.wf()
        &&& self.number_index.wf()
        &&& self.txs.wf()
        &&& self.receipts.wf()
    }

    pub fn new() -> (r: ChannelChain)
        ensures
            r.wf(),
            r.blocks_m() =~= Map::<Seq<u8>, Block>::empty(),
            r.numbers_m() =~= Map::<Seq<u8>, Hash256>::empty(),
            r.tip_spec() is None,
    {
        let r = ChannelChain {
            blocks: OMap::new(),
            number_index: OMap::new(),
            txs: OMap::new(),
            receipts: OMap::new(),
            tip: None,
        };
        proof {
            lemma_entries_map_domain(r.blocks.entries());
            lemma_entries_map_domain(r.number_index.entries());
        }
        r
    }

    /// Point the tip at a block hash.
    pub fn set_tip_block(&mut self, block_hash: Hash256)
        requires
            old(self).wf(),
        ensures
            final(self).wf(),
            final(self).tip_spec() == Some(block_hash),
            final(self).blocks_m() == old(self).blocks_m(),
            final(self).numbers_m() == old(self).numbers_m(),
            final(self).txs_m() == old(self).txs_m(),
            final(self).receipts_m() == old(self).receipts_m(),
    {
        self.tip = Some(block_hash);
    }

    /// File a block under its hash and index its number.
    pub fn insert_block(&mut self, block: Block)
        requires
            old(self).wf(),
            block.header.wf(),
        ensures
            final(self).wf(),
            final(self).blocks_m().contains_key(blake2b_of(enc_c_header(block.header))),
            c_block_eq(
                final(self).blocks_m()[blake2b_of(enc_c_header(block.header))],
                block,
            ),
            final(self).numbers_m().contains_key(le8(block.header.number)),
            final(self).numbers_m()[le8(block.header.number)]@ == blake2b_of(
                enc_c_header(block.header),
            ),
            forall|k: Seq<u8>|
                k != blake2b_of(enc_c_header(block.header)) ==> ((final(self).blocks_m().contains_key(k) <==> old(self).blocks_m().contains_key(k)) && (old(self).blocks_m().contains_key(k) ==> final(self).blocks_m()[k] == old(self).blocks_m()[k])),
            forall|k: Seq<u8>|
                k != le8(block.header.number) ==> ((final(self).numbers_m().contains_key(k)
                    <==> old(self).numbers_m().contains_key(k)) && (old(self).numbers_m().contains_key(k) ==> final(self).numbers_m()[k] == old(self).numbers_m()[k])),
            final(self).txs_m() == old(self).txs_m(),
            final(self).receipts_m() == old(self).receipts_m(),
            final(self).tip_spec() == old(self).tip_spec(),
    {
        let bh = block.block_hash();
        let number_key = crate::encode::le8_bytes(block.header.number);
        self.number_index.set(number_key, bh.clone());
        self.blocks.set(clone_bytes(&bh.bytes), block);
    }

    /// File one transaction under its hash.
    pub fn insert_transaction(&mut self, tx: SignedTransaction)
        requires
            old(self).wf(),
        ensures
            final(self).wf(),
            final(self).txs_m() == old(self).txs_m().insert(
                blake2b_of(enc_c_raw_tx(tx.raw)),
                tx,
            ),
            final(self).blocks_m() == old(self).blocks_m(),
            final(self).numbers_m() == old(self).numbers_m(),
            final(self).receipts_m() == old(self).receipts_m(),
            final(self).tip_spec() == old(self).tip_spec(),
    {
        let h = tx.tx_hash();
        self.txs.set(clone_bytes(&h.bytes), tx);
    }

    /// File each of a block's transactions under its hash.
    pub fn insert_transactions(&mut self, txs: &Vec<SignedTransaction>)
        requires
            old(self).wf(),
        ensures
            final(self).wf(),
            final(self).blocks_m() == old(self).blocks_m(),
            final(self).numbers_m() == old(self).numbers_m(),
            final(self).receipts_m() == old(self).receipts_m(),
            final(self).tip_spec() == old(self).tip_spec(),
            forall|i: int|
                0 <= i < txs@.len() ==> final(self).txs_m().contains_key(
                    blake2b_of(enc_c_raw_tx((#[trigger] txs@[i]).raw)),
                ),
    {
        let n = txs.len();
        let mut i: usize = 0;
        while i < n
            invariant
                self.wf(),
                n == txs@.len(),
                i <= n,
                self.blocks_m() == old(self).blocks_m(),
                self.numbers_m() == old(self).numbers_m(),
                self.receipts_m() == old(self).receipts_m(),
                self.tip_spec() == old(self).tip_spec(),
                forall|x: int|
                    0 <= x < i ==> self.txs_m().contains_key(
                        blake2b_of(enc_c_raw_tx((#[trigger] txs@[x]).raw)),
                    ),
            decreases n - i,
        {
            let tx = txs[i].clone();
            proof {
                assert(enc_c_raw_tx(tx.raw) == enc_c_raw_tx(txs@[i as int].raw));
            }
            self.insert_transaction(tx);
            i = i + 1;
        }
    }

    /// File a receipt under its transaction's hash.
    pub fn insert_transaction_receipt(&mut self, tx_hash: &Hash256, receipt: TransactionReceipt)
        requires
            old(self).wf(),
        ensures
            final(self).wf(),
            final(self).receipts_m() == old(self).receipts_m().insert(tx_hash@, receipt),
            final(self).blocks_m() == old(self).blocks_m(),
            final(self).numbers_m() == old(self).numbers_m(),
            final(self).txs_m() == old(self).txs_m(),
            final(self).tip_spec() == old(self).tip_spec(),
    {
        self.receipts.set(clone_bytes(&tx_hash.bytes), receipt);
    }

    /// The hash the number index holds for a block number.
    pub fn get_block_hash(&self, block_number: u64) -> (r: Option<&Hash256>)
        requires
            self.wf(),
        ensures
            (match r {
                Some(h) => self.numbers_m().contains_key(le8(block_number)) && *h
                    == self.numbers_m()[le8(block_number)],
                None => !self.numbers_m().contains_key(le8(block_number)),
            }),
    {
        let k = crate::encode::le8_bytes(block_number);
        self.number_index.get(&k)
    }

    /// The block filed under a hash.
    pub fn get_block_by_hash(&self, block_hash: &Hash256) -> (r: Option<&Block>)
        requires
            self.wf(),
        ensures
            (match r {
                Some(b) => self.blocks_m().contains_key(block_hash@) && *b == self.blocks_m()[block_hash@],
                None => !self.blocks_m().contains_key(block_hash@),
            }),
    {
        self.blocks.get(&block_hash.bytes)
    }

    /// The block a number or a hash names.
    pub fn get_block(&self, number_hash: &NumberHash) -> (r: Option<&Block>)
        requires
            self.wf(),
        ensures
            (match number_hash {
                NumberHash::Hash(h) => (match r {
                    Some(b) => self.blocks_m().contains_key(h@) && *b == self.blocks_m()[h@],
                    None => !self.blocks_m().contains_key(h@),
                }),
                NumberHash::Number(n) => (match r {
                    Some(b) => self.numbers_m().contains_key(le8(*n))
                        && self.blocks_m().contains_key(self.numbers_m()[le8(*n)]@) && *b
                        == self.blocks_m()[self.numbers_m()[le8(*n)]@],
                    None => !self.numbers_m().contains_key(le8(*n))
                        || !self.blocks_m().contains_key(self.numbers_m()[le8(*n)]@),
                }),
            }),
    {
        match number_hash {
            NumberHash::Hash(h) => self.get_block_by_hash(h),
            NumberHash::Number(n) => {
                match self.get_block_hash(*n) {
                    Some(h) => self.get_block_by_hash(h),
                    None => None,
                }
            },
        }
    }

    /// The transaction filed under a hash.
    pub fn get_transaction(&self, tx_hash: &Hash256) -> (r: Option<&SignedTransaction>)
        requires
            self.wf(),
        ensures
            (match r {
                Some(t) => self.txs_m().contains_key(tx_hash@) && *t == self.txs_m()[tx_hash@],
                None => !self.txs_m().contains_key(tx_hash@),
            }),
    {
        self.txs.get(&tx_hash.bytes)
    }

    /// The receipt filed under a transaction hash.
    pub fn get_transaction_receipt(&self, tx_hash: &Hash256) -> (r: Option<&TransactionReceipt>)
        requires
            self.wf(),
        ensures
            (match r {
                Some(t) => self.receipts_m().contains_key(tx_hash@) && *t == self.receipts_m()[tx_hash@],
                None => !self.receipts_m().contains_key(tx_hash@),
            }),
    {
        self.receipts.get(&tx_hash.bytes)
    }

    /// The block the tip pointer names.
    pub fn tip_block(&self) -> (r: Option<&Block>)
        requires
            self.wf(),
        ensures
            (match r {
                Some(b) => self.tip_spec() is Some && self.blocks_m().contains_key(
                    self.tip_spec()->Some_0@,
                ) && *b == self.blocks_m()[self.tip_spec()->Some_0@],
                None => self.tip_spec() is None || !self.blocks_m().contains_key(
                    self.tip_spec()->Some_0@,
                ),
            }),
    {
        match &self.tip {
            Some(h) => self.blocks.get(&h.bytes),
            None => None,
        }
    }
}

} // verus!
