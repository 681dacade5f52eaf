use vstd::prelude::*;
use crate::cbmt::cbmt_root_from_hashes;
use crate::channel_chain::ChannelChain;
use crate::channel_executor::{
    ChannelExecutor, ChannelSmt, ChanMap, leaves_of, run_ctxs, staged_m, staged_wf,
};
use crate::channel_mempool::{ChannelMap, PACKAGE_CAP, cstx_eq, package_heads};
use crate::channel_types::{
    Block, BlockHeader, Channel, RawTransaction, SignedTransaction, TransactionReceipt,
    c_block_eq, enc_c_header, enc_c_raw_tx, raw_ctx_eq,
};
use crate::hashes::blake2b_of;
use crate::omap::{OMap, entries_map, lemma_entries_map_domain};
use crate::primitives::Hash256;
use crate::smt::{smt_root_of, zero32};

verus! {

/// The digests of a transaction list's bodies, in order: the merkle leaves
/// of a block's transaction root.
pub open spec fn c_tx_hashes(txs: Seq<SignedTransaction>) -> Seq<Seq<u8>> {
    Seq::new(txs.len(), |i: int| blake2b_of(enc_c_raw_tx(txs[i].raw)))
}

/// What one block tick produced: the block, with its receipts and the
/// channels it wrote, kept for the commit that follows.
pub struct ConsensusReceipt {
    pub block: Block,
    pub transaction_receipts: Vec<TransactionReceipt>,
    pub updated_channels: OMap<Channel>,
}

impl ConsensusReceipt {
    /// The receipts keyed by their transactions' hashes, in block order.
    pub fn tx_receipts(&self) -> (r: Vec<(Hash256, TransactionReceipt)>)
        requires
            self.block.txs@.len() == self.transaction_receipts@.len(),
        ensures
            r@.len() == self.block.txs@.len(),
            forall|i: int|
                0 <= i < r@.len() ==> (#[trigger] r@[i]).0@ == blake2b_of(
                    enc_c_raw_tx(self.block.txs@[i].raw),
                ) && r@[i].1.exit_code == self.transaction_receipts@[i].exit_code && r@[i].1.state_root@
                    == self.transaction_receipts@[i].state_root@,
    {
        let mut out: Vec<(Hash256, TransactionReceipt)> = Vec::new();
        let n = self.block.txs.len();
        let mut i: usize = 0;
        while i < n
            invariant
                n == self.block.txs@.len(),
                n == self.transaction_receipts@.len(),
                i <= n,
                out@.len() == i,
                forall|x: int|
                    0 <= x < i ==> (#[trigger] out@[x]).0@ == blake2b_of(
                        enc_c_raw_tx(self.block.txs@[x].raw),
                    ) && out@[x].1.exit_code == self.transaction_receipts@[x].exit_code
                        && out@[x].1.state_root@ == self.transaction_receipts@[x].state_root@,
            decreases n - i,
        {
            let h = self.block.txs[i].tx_hash();
            let rc = self.transaction_receipts[i].clone();
            out.push((h, rc));
            i = i + 1;
        }
        out
    }
}

/// Transaction bodies that step the channel map the same way run alike.
pub proof fn lemma_step_ctx_congruence(m: ChanMap, staged: ChanMap, a: RawTransaction, b: RawTransaction)
    requires
        raw_ctx_eq(a, b),
    ensures
        crate::channel_executor::step_ctx(m, staged, a) == crate::channel_executor::step_ctx(
            m,
            staged,
            b,
        ),
{
}

/// Transaction lists that carry the same bodies run to the same channels and
/// receipts.
pub proof fn lemma_run_ctxs_congruence(
    m: ChanMap,
    staged: ChanMap,
    a: Seq<RawTransaction>,
    b: Seq<RawTransaction>,
)
    requires
        a.len() == b.len(),
        forall|i: int| 0 <= i < a.len() ==> raw_ctx_eq(a[i], b[i]),
    ensures
        run_ctxs(m, staged, a) == run_ctxs(m, staged, b),
    decreases a.len(),
{
    if a.len() > 0 {
        assert(forall|i: int|
            0 <= i < a.drop_last().len() ==> raw_ctx_eq(a.drop_last()[i], b.drop_last()[i]));
        lemma_run_ctxs_congruence(m, staged, a.drop_last(), b.drop_last());
        let prior = run_ctxs(m, staged, a.drop_last());
        lemma_step_ctx_congruence(prior.0, prior.1, a.last(), b.last());
    }
}

/// Execution threads every accepted write through both the working map and
/// the staged set: starting from channels that are the base with the staged
/// writes drained over it, the final channels are the base with the final
/// staged writes drained over it.
pub proof fn lemma_staged_writes_rebuild_execution(
    base: ChanMap,
    m: ChanMap,
    staged: ChanMap,
    txs: Seq<RawTransaction>,
)
    requires
        m == base.union_prefer_right(staged),
    ensures
        run_ctxs(m, staged, txs).0 == base.union_prefer_right(run_ctxs(m, staged, txs).1),
    decreases txs.len(),
{
    if txs.len() > 0 {
        lemma_staged_writes_rebuild_execution(base, m, staged, txs.drop_last());
        let prior = run_ctxs(m, staged, txs.drop_last());
        let stepped = crate::channel_executor::step_ctx(prior.0, prior.1, txs.last());
        assert(stepped.0 =~~= base.union_prefer_right(stepped.1));
    }
}

/// A committed tick rebuilds the executed channels: draining a block's
/// staged writes over the committed channels gives exactly the map the
/// execution ended on, so the committed tree's root equals the block
/// header's state root.
pub proof fn lemma_commit_root_matches_header(m0: ChanMap, txs: Seq<RawTransaction>)
    ensures
        run_ctxs(m0, Map::empty(), txs).0 == m0.union_prefer_right(
            run_ctxs(m0, Map::empty(), txs).1,
        ),
        smt_root_of(leaves_of(run_ctxs(m0, Map::empty(), txs).0)) == smt_root_of(
            leaves_of(m0.union_prefer_right(run_ctxs(m0, Map::empty(), txs).1)),
        ),
{
    assert(m0 =~~= m0.union_prefer_right(Map::<Seq<u8>, crate::channel_types::ChannelV>::empty()));
    lemma_staged_writes_rebuild_execution(m0, m0, Map::empty(), txs);
}

/// The channel tier's block producer; the mempool, committed channels and
/// chain store are handed in at each tick.
pub struct ChannelConsensus {}

impl ChannelConsensus {
    pub fn new() -> (r: ChannelConsensus) {
        ChannelConsensus {  }
    }

    /// One block tick: package one transaction per sender, execute against
    /// the committed channels, and assemble the next block over the tip. A
    /// tick with no transactions produces a block whose transaction root is
    /// the zero digest and whose state root is the root of the committed
    /// channels, untouched. `None` reports a missing tip, an exhausted
    /// number space, or a tree fault.
    pub fn produce_block(
        &self,
        mempool: &ChannelMap,
        committed: &ChannelSmt,
        chain: &ChannelChain,
        timestamp: u128,
    ) -> (r: Option<ConsensusReceipt>)
        requires
            mempool.wf(),
            committed.wf(),
            chain.wf(),
        ensures
            (match r {
                Some(cr) => {
                    &&& cr.block.header.wf()
                    &&& cr.block.txs@.len() == package_heads(
                        mempool.entries(),
                        PACKAGE_CAP as nat,
                    ).len()
                    &&& (forall|i: int|
                        0 <= i < cr.block.txs@.len() ==> cstx_eq(
                            cr.block.txs@[i],
                            package_heads(mempool.entries(), PACKAGE_CAP as nat)[i],
                        ))
                    &&& staged_wf(cr.updated_channels)
                    &&& staged_m(cr.updated_channels) == run_ctxs(
                        committed.chans(),
                        Map::empty(),
                        raws_of(cr.block.txs@),
                    ).1
                    &&& cr.block.header.state_root@ == smt_root_of(
                        leaves_of(
                            run_ctxs(committed.chans(), Map::empty(), raws_of(cr.block.txs@)).0,
                        ),
                    )
                    &&& cr.block.header.transaction_root@ == crate::cbmt::cbmt_root_spec(
                        false,
                        c_tx_hashes(cr.block.txs@),
                    )
                    &&& cr.block.header.receipt_root@ == crate::cbmt::cbmt_root_spec(
                        false,
                        crate::channel_executor::receipt_leaves(
                            run_ctxs(committed.chans(), Map::empty(), raws_of(cr.block.txs@)).2,
                        ),
                    )
                    &&& (forall|i: int|
                        0 <= i < cr.transaction_receipts@.len() ==> (
                        #[trigger] cr.transaction_receipts@[i]).exit_code == run_ctxs(
                            committed.chans(),
                            Map::empty(),
                            raws_of(cr.block.txs@),
                        ).2[i].0 && cr.transaction_receipts@[i].state_root@ == run_ctxs(
                            committed.chans(),
                            Map::empty(),
                            raws_of(cr.block.txs@),
                        ).2[i].1)
                    &&& cr.block.header.timestamp == timestamp
                    &&& chain.tip_spec() is Some
                    &&& chain.blocks_m().contains_key(chain.tip_spec()->Some_0@)
                    &&& cr.block.header.number == chain.blocks_m()[chain.tip_spec()->Some_0@].header.number + 1
                    &&& cr.block.header.parent_hash@ == blake2b_of(
                        enc_c_header(chain.blocks_m()[chain.tip_spec()->Some_0@].header),
                    )
                    &&& cr.transaction_receipts@.len() == cr.block.txs@.len()
                    &&& (cr.block.txs@.len() == 0 ==> cr.block.header.transaction_root@
                        == zero32() && cr.block.header.state_root@ == smt_root_of(
                        leaves_of(committed.chans()),
                    ))
                },
                None => true,
            }),
    {
        let txs = mempool.package_transactions();
        let mut raws: Vec<RawTransaction> = Vec::new();
        let n = txs.len();
        let mut i: usize = 0;
        while i < n
            invariant
                n == txs@.len(),
                i <= n,
                raws@.len() == i,
                forall|x: int| 0 <= x < i ==> raw_ctx_eq((#[trigger] raws@[x]), txs@[x].raw),
            decreases n - i,
        {
            raws.push(txs[i].raw.clone());
            i = i + 1;
        }
        let executor = ChannelExecutor::new();
        let exec_receipt = match executor.exec(committed, &raws) {
            Some(x) => x,
            None => {
                return None;
            },
        };
        let mut tx_hashes: Vec<Hash256> = Vec::new();
        let mut j: usize = 0;
        while j < n
            invariant
                n == txs@.len(),
                j <= n,
                tx_hashes@.len() == j,
                forall|x: int|
                    0 <= x < j ==> (#[trigger] tx_hashes@[x])@ == blake2b_of(
                        enc_c_raw_tx(txs@[x].raw),
                    ) && tx_hashes@[x].wf(),
            decreases n - j,
        {
            tx_hashes.push(txs[j].tx_hash());
            j = j + 1;
        }
        let transaction_root = cbmt_root_from_hashes(false, &tx_hashes);
        let tip = match chain.tip_block() {
            Some(b) => b,
            None => {
                return None;
            },
        };
        if tip.header.number == u64::MAX {
            return None;
        }
        let parent_hash = tip.block_hash();
        let header = BlockHeader {
            number: tip.header.number + 1,
            parent_hash,
            timestamp,
            state_root: exec_receipt.state_root,
            transaction_root,
            receipt_root: exec_receipt.receipt_root,
        };
        let block = Block { header, txs };
        proof {
            lemma_run_ctxs_congruence(
                committed.chans(),
                Map::empty(),
                raws@,
                raws_of(block.txs@),
            );
            assert(Seq::new(tx_hashes@.len(), |x: int| tx_hashes@[x]@) =~= c_tx_hashes(
                block.txs@,
            ));
            if block.txs@.len() == 0 {
                assert(raws_of(block.txs@) =~= Seq::<RawTransaction>::empty());
            }
        }
        Some(
            ConsensusReceipt {
                block,
                transaction_receipts: exec_receipt.transaction_receipts,
                updated_channels: exec_receipt.updated_channels,
            },
        )
    }
}

/// The bodies of a transaction list, in order.
pub open spec fn raws_of(txs: Seq<SignedTransaction>) -> Seq<RawTransaction> {
    Seq::new(txs.len(), |i: int| txs[i].raw)
}

impl ChannelChain {
    /// Commit one tick: file the block, move the tip, file its transactions
    /// and receipts, and drain the staged channel writes into the committed
    /// tree. `false` reports a tree fault.
    pub fn apply_consensus_receipt(
        &mut self,
        receipt: &ConsensusReceipt,
        committed: &mut ChannelSmt,
    ) -> (r: bool)
        requires
            old(self).wf(),
            old(committed).wf(),
            receipt.block.header.wf(),
            staged_wf(receipt.updated_channels),
            receipt.block.txs@.len() == receipt.transaction_receipts@.len(),
        ensures
            final(self).wf(),
            r ==> final(committed).wf(),
            r ==> final(committed).chans() == old(committed).chans().union_prefer_right(
                staged_m(receipt.updated_channels),
            ),
            r ==> final(self).blocks_m().contains_key(
                blake2b_of(enc_c_header(receipt.block.header)),
            ) && c_block_eq(
                final(self).blocks_m()[blake2b_of(enc_c_header(receipt.block.header))],
                receipt.block,
            ),
            r ==> (match final(self).tip_spec() {
                Some(h) => h@ == blake2b_of(enc_c_header(receipt.block.header)),
                None => false,
            }),
            r ==> (forall|i: int|
                0 <= i < receipt.block.txs@.len() ==> final(self).txs_m().contains_key(
                    blake2b_of(enc_c_raw_tx((#[trigger] receipt.block.txs@[i]).raw)),
                )),
            r ==> (forall|i: int|
                0 <= i < receipt.block.txs@.len() ==> final(self).receipts_m().contains_key(
                    blake2b_of(enc_c_raw_tx((#[trigger] receipt.block.txs@[i]).raw)),
                )),
            r ==> (forall|i: int|
                0 <= i < receipt.block.txs@.len() && (forall|j: int|
                    i < j < receipt.block.txs@.len() ==> blake2b_of(
                        enc_c_raw_tx((#[trigger] receipt.block.txs@[j]).raw),
                    ) != blake2b_of(enc_c_raw_tx(receipt.block.txs@[i].raw)))
                    ==> final(self).receipts_m()[blake2b_of(enc_c_raw_tx((#[trigger] receipt.block.txs@[i]).raw))].exit_code == receipt.transaction_receipts@[i].exit_code && final(self).receipts_m()[blake2b_of(enc_c_raw_tx(receipt.block.txs@[i].raw))].state_root@
                    == receipt.transaction_receipts@[i].state_root@),
    {
        let copy = receipt.block.clone();
        proof {
            crate::channel_types::lemma_c_header_eq_enc(copy.header, receipt.block.header);
        }
        let bh = receipt.block.block_hash();
        self.insert_block(copy);
        self.set_tip_block(bh);
        self.insert_transactions(&receipt.block.txs);
        proof {
            assert(c_block_eq(
                self.blocks_m()[blake2b_of(enc_c_header(receipt.block.header))],
                receipt.block,
            ));
        }
        let ghost txs_filed = self.txs_m();
        let pairs = receipt.tx_receipts();
        let m = pairs.len();
        let mut i: usize = 0;
        while i < m
            invariant
                self.wf(),
                m == pairs@.len(),
                m == receipt.block.txs@.len(),
                m == receipt.transaction_receipts@.len(),
                i <= m,
                forall|x: int|
                    0 <= x < m ==> (#[trigger] pairs@[x]).0@ == blake2b_of(
                        enc_c_raw_tx(receipt.block.txs@[x].raw),
                    ) && pairs@[x].1.exit_code == receipt.transaction_receipts@[x].exit_code
                        && pairs@[x].1.state_root@
                        == receipt.transaction_receipts@[x].state_root@,
                self.blocks_m().contains_key(blake2b_of(enc_c_header(receipt.block.header))),
                c_block_eq(
                    self.blocks_m()[blake2b_of(enc_c_header(receipt.block.header))],
                    receipt.block,
                ),
                (match self.tip_spec() {
                    Some(h) => h@ == blake2b_of(enc_c_header(receipt.block.header)),
                    None => false,
                }),
                self.txs_m() == txs_filed,
                forall|x: int|
                    0 <= x < receipt.block.txs@.len() ==> self.txs_m().contains_key(
                        blake2b_of(enc_c_raw_tx((#[trigger] receipt.block.txs@[x]).raw)),
                    ),
                forall|x: int|
                    0 <= x < i ==> self.receipts_m().contains_key(
                        blake2b_of(enc_c_raw_tx((#[trigger] receipt.block.txs@[x]).raw)),
                    ),
                forall|x: int|
                    0 <= x < i && !(#[trigger] rhash_in_between(receipt.block.txs@, x, i as int))
                        ==> self.receipts_m()[blake2b_of(enc_c_raw_tx(receipt.block.txs@[x].raw))].exit_code == receipt.transaction_receipts@[x].exit_code
                        && self.receipts_m()[blake2b_of(enc_c_raw_tx(receipt.block.txs@[x].raw))].state_root@ == receipt.transaction_receipts@[x].state_root@,
            decreases m - i,
        {
            let (h, rc) = (&pairs[i].0, pairs[i].1.clone());
            let ghost pre_receipts = self.receipts_m();
            self.insert_transaction_receipt(h, rc);
            proof {
                let bt = receipt.block.txs@;
                assert forall|x: int|
                    0 <= x < i + 1 && !(#[trigger] rhash_in_between(bt, x, i + 1 as int))
                        implies self.receipts_m()[blake2b_of(enc_c_raw_tx(bt[x].raw))].exit_code == receipt.transaction_receipts@[x].exit_code
                        && self.receipts_m()[blake2b_of(enc_c_raw_tx(bt[x].raw))].state_root@ == receipt.transaction_receipts@[x].state_root@ by {
                    if x == i as int {
                    } else {
                        assert(!rhash_in_between(bt, x, i as int)) by {
                            if rhash_in_between(bt, x, i as int) {
                                let j = choose|j: int|
                                    x < j < i && blake2b_of(
                                        enc_c_raw_tx((#[trigger] bt[j]).raw),
                                    ) == blake2b_of(enc_c_raw_tx(bt[x].raw));
                                assert(rhash_in_between(bt, x, i + 1 as int));
                            }
                        }
                        assert(blake2b_of(enc_c_raw_tx(bt[i as int].raw)) != blake2b_of(
                            enc_c_raw_tx(bt[x].raw),
                        )) by {
                            if blake2b_of(enc_c_raw_tx(bt[i as int].raw)) == blake2b_of(
                                enc_c_raw_tx(bt[x].raw),
                            ) {
                                assert(x < i as int && (i as int) < i + 1 && blake2b_of(
                                    enc_c_raw_tx(bt[i as int].raw),
                                ) == blake2b_of(enc_c_raw_tx(bt[x].raw)));
                                assert(rhash_in_between(bt, x, i + 1 as int));
                            }
                        }
                        assert(self.receipts_m()[blake2b_of(enc_c_raw_tx(bt[x].raw))]
                            == pre_receipts[blake2b_of(enc_c_raw_tx(bt[x].raw))]);
                    }
                }
            }
            i = i + 1;
        }
        proof {
            assert forall|x: int|
                0 <= x < receipt.block.txs@.len() && (forall|j: int|
                    x < j < receipt.block.txs@.len() ==> blake2b_of(
                        enc_c_raw_tx((#[trigger] receipt.block.txs@[j]).raw),
                    ) != blake2b_of(enc_c_raw_tx(receipt.block.txs@[x].raw))) implies
                !rhash_in_between(receipt.block.txs@, x, receipt.block.txs@.len() as int) by {
                if rhash_in_between(receipt.block.txs@, x, receipt.block.txs@.len() as int) {
                    let j = choose|j: int|
                        x < j < receipt.block.txs@.len() && blake2b_of(
                            enc_c_raw_tx((#[trigger] receipt.block.txs@[j]).raw),
                        ) == blake2b_of(enc_c_raw_tx(receipt.block.txs@[x].raw));
                }
            }
        }
        let ghost staged = receipt.updated_channels.entries();
        let ghost m0 = committed.chans();
        let k = receipt.updated_channels.len();
        let mut x: usize = 0;
        proof {
            assert(staged.take(0) =~= Seq::<(Seq<u8>, Channel)>::empty());
            lemma_entries_map_domain(staged.take(0));
            assert(committed.chans() =~~= m0.union_prefer_right(
                staged_m_of(staged.take(0)),
            ));
        }
        while x < k
            invariant
                self.wf(),
                m == receipt.block.txs@.len(),
                forall|y: int|
                    0 <= y < receipt.block.txs@.len() ==> self.txs_m().contains_key(
                        blake2b_of(enc_c_raw_tx((#[trigger] receipt.block.txs@[y]).raw)),
                    ),
                forall|y: int|
                    0 <= y < receipt.block.txs@.len() ==> self.receipts_m().contains_key(
                        blake2b_of(enc_c_raw_tx((#[trigger] receipt.block.txs@[y]).raw)),
                    ),
                forall|y: int|
                    0 <= y < receipt.block.txs@.len() && !(#[trigger] rhash_in_between(
                        receipt.block.txs@,
                        y,
                        receipt.block.txs@.len() as int,
                    )) ==> self.receipts_m()[
                        blake2b_of(enc_c_raw_tx(receipt.block.txs@[y].raw))
                    ].exit_code == receipt.transaction_receipts@[y].exit_code
                        && self.receipts_m()[
                        blake2b_of(enc_c_raw_tx(receipt.block.txs@[y].raw))
                    ].state_root@ == receipt.transaction_receipts@[y].state_root@,
                self.blocks_m().contains_key(blake2b_of(enc_c_header(receipt.block.header))),
                c_block_eq(
                    self.blocks_m()[blake2b_of(enc_c_header(receipt.block.header))],
                    receipt.block,
                ),
                (match self.tip_spec() {
                    Some(h) => h@ == blake2b_of(enc_c_header(receipt.block.header)),
                    None => false,
                }),
                committed.wf(),
                staged == receipt.updated_channels.entries(),
                staged_wf(receipt.updated_channels),
                k == staged.len(),
                x <= k,
                committed.chans() == m0.union_prefer_right(staged_m_of(staged.take(x as int))),
            decreases k - x,
        {
            proof {
                assert(staged[x as int].0 == staged[x as int].1.id.le_bytes_spec());
            }
            let ch = receipt.updated_channels.val_at(x).clone();
            match committed.update(ch) {
                Some(_) => {},
                None => {
                    return false;
                },
            }
            proof {
                let s1 = staged.take(x + 1 as int);
                assert(s1.drop_last() =~= staged.take(x as int));
                assert(s1.last() == staged[x as int]);
                assert(entries_map(s1) == entries_map(staged.take(x as int)).insert(
                    staged[x as int].0,
                    staged[x as int].1,
                ));
                assert(staged_m_of(s1) =~~= staged_m_of(staged.take(x as int)).insert(
                    staged[x as int].0,
                    staged[x as int].1.v(),
                ));
                assert(committed.chans() =~~= m0.union_prefer_right(staged_m_of(s1)));
            }
            x = x + 1;
        }
        proof {
            assert(staged.take(k as int) =~= staged);
            assert(staged_m_of(staged) =~~= staged_m(receipt.updated_channels));
        }
        proof {
            let bt = receipt.block.txs@;
            assert forall|i: int|
                0 <= i < bt.len() && (forall|j: int|
                    i < j < bt.len() ==> blake2b_of(enc_c_raw_tx((#[trigger] bt[j]).raw))
                        != blake2b_of(enc_c_raw_tx(bt[i].raw))) implies self.receipts_m()[
                blake2b_of(enc_c_raw_tx(bt[i].raw))
            ].exit_code == receipt.transaction_receipts@[i].exit_code && self.receipts_m()[
                blake2b_of(enc_c_raw_tx(bt[i].raw))
            ].state_root@ == receipt.transaction_receipts@[i].state_root@ by {
                assert(!rhash_in_between(bt, i, bt.len() as int)) by {
                    if rhash_in_between(bt, i, bt.len() as int) {
                        let j = choose|j: int|
                            i < j < bt.len() && blake2b_of(
                                enc_c_raw_tx((#[trigger] bt[j]).raw),
                            ) == blake2b_of(enc_c_raw_tx(bt[i].raw));
                    }
                }
            }
        }
        true
    }
}

/// A later transaction in the span carries the same body hash.
pub open spec fn rhash_in_between(txs: Seq<SignedTransaction>, x: int, hi: int) -> bool {
    exists|j: int|
        x < j < hi && blake2b_of(enc_c_raw_tx((#[trigger] txs[j]).raw)) == blake2b_of(
            enc_c_raw_tx(txs[x].raw),
        )
}

/// A sequence of staged entries as a channel map.
pub open spec fn staged_m_of(s: Seq<(Seq<u8>, Channel)>) -> ChanMap {
    Map::new(
        |k: Seq<u8>| entries_map(s).contains_key(k),
        |k: Seq<u8>| entries_map(s)[k].v(),
    )
}

} // verus!
