use vstd::prelude::*;
use crate::encode::le8;
use crate::hashes::blake3_of;
use crate::omap::{OMap, entries_map};
use crate::primitives::{Hash256, clone_bytes};
use crate::token_types::{Block, Header, SignedTransaction, block_eq, enc_header, header_eq, stx_view_eq};

verus! {

/// Some transaction among the first `i` carries this hash.
pub open spec fn hash_in_prefix(txs: Seq<SignedTransaction>, i: int, k: Seq<u8>) -> bool {
    exists|x: int| 0 <= x < i && (#[trigger] txs[x]).tx_hash@ == k
}

/// The token tier's chain store: blocks by header hash, a number-to-hash
/// index keyed by the number's little-endian bytes, transactions by hash,
/// and the latest header.
pub struct CovalentChain {
    blocks: OMap<Block>,
    number_index: OMap<Vec<u8>>,
    txs: OMap<SignedTransaction>,
    latest: Option<Header>,
}

impl CovalentChain {
    pub closed spec fn blocks_m(&self) -> Map<Seq<u8>, Block> {
        entries_map(self.blocks.entries())
    }

    pub closed spec fn numbers_m(&self) -> Map<Seq<u8>, Vec<u8>> {
        entries_map(self.number_index.entries())
    }

    pub closed spec fn txs_m(&self) -> Map<Seq<u8>, SignedTransaction> {
        entries_map(self.txs.entries())
    }

    pub closed spec fn latest_spec(&self) -> Option<Header> {
        self.latest
    }

    pub closed spec fn wf(&self) -> bool {
        self.blocks.wf() && self.number_index.wf() && self.txs.wf()
    }

    pub fn new() -> (r: CovalentChain)
        ensures
            r.wf(),
            r.blocks_m() =~= Map::<Seq<u8>, Block>::empty(),
            r.numbers_m() =~= Map::<Seq<u8>, Vec<u8>>::empty(),
            r.txs_m() =~= Map::<Seq<u8>, SignedTransaction>::empty(),
            r.latest_spec() is None,
    {
        let r = CovalentChain {
            blocks: OMap::new(),
            number_index: OMap::new(),
            txs: OMap::new(),
            latest: None,
        };
        proof {
            crate::omap::lemma_entries_map_domain(r.blocks.entries());
            crate::omap::lemma_entries_map_domain(r.number_index.entries());
            crate::omap::lemma_entries_map_domain(r.txs.entries());
        }
        r
    }

    /// Persist a block: file it under its header hash, index its number,
    /// move the latest-header pointer, and file each of its transactions.
    pub fn save_block(&mut self, block: Block)
        requires
            old(self).wf(),
            block.header.wf(),
        ensures
            final(self).wf(),
            (match final(self).latest_spec() {
                Some(h) => header_eq(h, block.header),
                None => false,
            }),
            final(self).blocks_m().contains_key(blake3_of(enc_header(block.header))),
            block_eq(
                final(self).blocks_m()[blake3_of(enc_header(block.header))],
                block,
            ),
            forall|k: Seq<u8>|
                k != blake3_of(enc_header(block.header)) ==> (final(self).blocks_m().contains_key(k) <==> old(self).blocks_m().contains_key(k))
                    && (old(self).blocks_m().contains_key(k) ==> final(self).blocks_m()[k]
                    == old(self).blocks_m()[k]),
            final(self).numbers_m().contains_key(le8(block.header.number)),
            final(self).numbers_m()[le8(block.header.number)]@ == blake3_of(
                enc_header(block.header),
            ),
            forall|k: Seq<u8>|
                k != le8(block.header.number) ==> (final(self).numbers_m().contains_key(k)
                    <==> old(self).numbers_m().contains_key(k)) && (old(self).numbers_m().contains_key(k) ==> final(self).numbers_m()[k] == old(self).numbers_m()[k]),
            forall|i: int|
                0 <= i < block.txs@.len() ==> final(self).txs_m().contains_key(
                    (#[trigger] block.txs@[i]).tx_hash@,
                ) && final(self).txs_m()[block.txs@[i].tx_hash@].tx_hash@
                    == block.txs@[i].tx_hash@,
            forall|i: int|
                0 <= i < block.txs@.len() && (forall|j: int|
                    i < j < block.txs@.len() ==> (#[trigger] block.txs@[j]).tx_hash@
                        != block.txs@[i].tx_hash@) ==> stx_view_eq(
                    final(self).txs_m()[(#[trigger] block.txs@[i]).tx_hash@],
                    block.txs@[i],
                ),
    {
        let hh = block.header_hash();
        let n = block.txs.len();
        let mut i: usize = 0;
        while i < n
            invariant
                old(self).wf(),
                block.header.wf(),
                self.blocks == old(self).blocks,
                self.number_index == old(self).number_index,
                self.latest == old(self).latest,
                self.txs.wf(),
                n == block.txs@.len(),
                i <= n,
                forall|x: int|
                    0 <= x < i ==> self.txs_m().contains_key(
                        (#[trigger] block.txs@[x]).tx_hash@,
                    ) && self.txs_m()[block.txs@[x].tx_hash@].tx_hash@
                        == block.txs@[x].tx_hash@,
                forall|x: int|
                    0 <= x < i && (forall|j: int|
                        x < j < i ==> (#[trigger] block.txs@[j]).tx_hash@
                            != block.txs@[x].tx_hash@) ==> stx_view_eq(
                        self.txs_m()[(#[trigger] block.txs@[x]).tx_hash@],
                        block.txs@[x],
                    ),
                forall|k: Seq<u8>|
                    !(#[trigger] hash_in_prefix(block.txs@, i as int, k)) ==> ((
                    self.txs_m().contains_key(k) <==> old(self).txs_m().contains_key(k)) && (old(self).txs_m().contains_key(k) ==> self.txs_m()[k] == old(self).txs_m()[k])),
            decreases n - i,
        {
            let stx = &block.txs[i];
            let cl = stx.clone();
            let ghost pre = self.txs_m();
            self.txs.set(clone_bytes(&stx.tx_hash.bytes), cl);
            proof {
                assert(self.txs_m() == pre.insert(block.txs@[i as int].tx_hash@, cl));
                assert forall|k: Seq<u8>|
                    !(#[trigger] hash_in_prefix(block.txs@, i + 1 as int, k)) implies ((
                self.txs_m().contains_key(k) <==> old(self).txs_m().contains_key(k)) && (old(self).txs_m().contains_key(k) ==> self.txs_m()[k] == old(self).txs_m()[k])) by {
                    assert(block.txs@[i as int].tx_hash@ != k) by {
                        if block.txs@[i as int].tx_hash@ == k {
                            assert(0 <= i < i + 1 && block.txs@[i as int].tx_hash@ == k);
                            assert(hash_in_prefix(block.txs@, i + 1 as int, k));
                        }
                    }
                    assert(!hash_in_prefix(block.txs@, i as int, k)) by {
                        if hash_in_prefix(block.txs@, i as int, k) {
                            let x = choose|x: int|
                                0 <= x < i && (#[trigger] block.txs@[x]).tx_hash@ == k;
                            assert(0 <= x < i + 1 && block.txs@[x].tx_hash@ == k);
                            assert(hash_in_prefix(block.txs@, i + 1 as int, k));
                        }
                    }
                }
            }
            i = i + 1;
        }
        let number_key = crate::encode::le8_bytes(block.header.number);
        self.number_index.set(number_key, clone_bytes(&hh.bytes));
        self.latest = Some(block.header.clone());
        self.blocks.set(clone_bytes(&hh.bytes), block);
    }

    /// The block filed under a header hash.
    pub fn get_block_by_hash(&self, hash: &Hash256) -> (r: Option<&Block>)
        requires
            self.wf(),
        ensures
            (match r {
                Some(b) => self.blocks_m().contains_key(hash@) && *b == self.blocks_m()[hash@],
                None => !self.blocks_m().contains_key(hash@),
            }),
    {
        self.blocks.get(&hash.bytes)
    }

    /// The block a number points at, through the number-to-hash index.
    pub fn get_block_by_number(&self, number: u64) -> (r: Option<&Block>)
        requires
            self.wf(),
        ensures
            (match r {
                Some(b) => self.numbers_m().contains_key(le8(number))
                    && self.blocks_m().contains_key(self.numbers_m()[le8(number)]@) && *b
                    == self.blocks_m()[self.numbers_m()[le8(number)]@],
                None => !self.numbers_m().contains_key(le8(number))
                    || !self.blocks_m().contains_key(self.numbers_m()[le8(number)]@),
            }),
    {
        let key = crate::encode::le8_bytes(number);
        match self.number_index.get(&key) {
            Some(h) => self.blocks.get(h),
            None => None,
        }
    }

    /// The header the tip pointer names.
    pub fn get_latest_block(&self) -> (r: Option<&Header>)
        ensures
            r == (match self.latest_spec() {
                Some(_) => Some::<&Header>(&self.latest_spec()->Some_0),
                None => None::<&Header>,
            }),
            r is Some <==> self.latest_spec() is Some,
            (match r {
                Some(h) => self.latest_spec() == Some(*h),
                None => self.latest_spec() is None,
            }),
    {
        match &self.latest {
            Some(h) => Some(h),
            None => None,
        }
    }

    /// The transaction filed under a hash.
    pub fn get_tx_by_hash(&self, hash: &Hash256) -> (r: Option<&SignedTransaction>)
        requires
            self.wf(),
        ensures
            (match r {
                Some(t) => self.txs_m().contains_key(hash@) && *t == self.txs_m()[hash@],
                None => !self.txs_m().contains_key(hash@),
            }),
    {
        self.txs.get(&hash.bytes)
    }
}

} // verus!
