use vstd::prelude::*;
use crate::channel_types::{Block, SignedTransaction, raw_ctx_eq};
use crate::omap::{OMap, entries_map, lemma_entries_map_domain};
use crate::primitives::{bytes_eq, clone_bytes};

verus! {

/// The largest number of transactions one packaging hands out.
pub const PACKAGE_CAP: usize = 200;

/// Two channel transactions that carry the same values.
pub open spec fn cstx_eq(a: SignedTransaction, b: SignedTransaction) -> bool {
    &&& raw_ctx_eq(a.raw, b.raw)
    &&& a.sig@ == b.sig@
    &&& a.from@ == b.from@
    &&& a.hash@ == b.hash@
}

/// The heads of the first non-empty queues, at most `cap` of them, in queue
/// order.
pub open spec fn package_heads(
    s: Seq<(Seq<u8>, Vec<SignedTransaction>)>,
    cap: nat,
) -> Seq<SignedTransaction>
    decreases s.len(),
{
    if cap == 0 || s.len() == 0 {
        Seq::empty()
    } else if s[0].1@.len() == 0 {
        package_heads(s.drop_first(), cap)
    } else {
        seq![s[0].1@[0]] + package_heads(s.drop_first(), (cap - 1) as nat)
    }
}

/// The first position of a hash in a queue, or `-1`.
pub open spec fn find_hash(b: Seq<SignedTransaction>, h: Seq<u8>) -> int
    decreases b.len(),
{
    if b.len() == 0 {
        -1
    } else if b[0].hash@ == h {
        0
    } else {
        let r = find_hash(b.drop_first(), h);
        if r == -1 {
            -1
        } else {
            r + 1
        }
    }
}

proof fn lemma_find_hash_first(b: Seq<SignedTransaction>, h: Seq<u8>, i: int)
    requires
        0 <= i < b.len(),
        b[i].hash@ == h,
        forall|j: int| 0 <= j < i ==> b[j].hash@ != h,
    ensures
        find_hash(b, h) == i,
    decreases b.len(),
{
    if i > 0 {
        assert(forall|j: int| 0 <= j < i - 1 ==> b.drop_first()[j].hash@ != h);
        assert(b.drop_first()[i - 1].hash@ == h);
        lemma_find_hash_first(b.drop_first(), h, i - 1);
    }
}

proof fn lemma_find_hash_none(b: Seq<SignedTransaction>, h: Seq<u8>)
    requires
        forall|j: int| 0 <= j < b.len() ==> b[j].hash@ != h,
    ensures
        find_hash(b, h) == -1,
    decreases b.len(),
{
    if b.len() > 0 {
        assert(forall|j: int| 0 <= j < b.drop_first().len() ==> b.drop_first()[j].hash@ != h);
        lemma_find_hash_none(b.drop_first(), h);
    }
}

/// What one committed transaction does to the pool: the sender's queue is
/// cut to the suffix after the matching hash; a queue found empty or matched
/// at its last element is dropped whole; unknown senders and hashes are left
/// alone.
pub open spec fn reset_step(
    m: Map<Seq<u8>, Seq<SignedTransaction>>,
    from: Seq<u8>,
    h: Seq<u8>,
) -> Map<Seq<u8>, Seq<SignedTransaction>> {
    if !m.contains_key(from) {
        m
    } else {
        let b = m[from];
        if b.len() == 0 {
            m.remove(from)
        } else {
            let idx = find_hash(b, h);
            if idx == -1 {
                m
            } else if idx == b.len() - 1 {
                m.remove(from)
            } else {
                m.insert(from, b.skip(idx + 1))
            }
        }
    }
}

/// A whole block folded into the pool, transaction by transaction in block
/// order.
pub open spec fn reset_all(
    m: Map<Seq<u8>, Seq<SignedTransaction>>,
    txs: Seq<SignedTransaction>,
) -> Map<Seq<u8>, Seq<SignedTransaction>>
    decreases txs.len(),
{
    if txs.len() == 0 {
        m
    } else {
        reset_step(reset_all(m, txs.drop_last()), txs.last().from@, txs.last().hash@)
    }
}

/// The per-sender queues of the channel mempool, keyed by sender address and
/// served head-first.
pub struct ChannelMap {
    map: OMap<Vec<SignedTransaction>>,
}

impl ChannelMap {
    /// The queues in order.
    pub closed spec fn entries(&self) -> Seq<(Seq<u8>, Vec<SignedTransaction>)> {
        self.map.entries()
    }

    /// Sender to queue, queues read as sequences.
    pub open spec fn m(&self) -> Map<Seq<u8>, Seq<SignedTransaction>> {
        Map::new(
            |k: Seq<u8>| entries_map(self.entries()).contains_key(k),
            |k: Seq<u8>| entries_map(self.entries())[k]@,
        )
    }

    pub closed spec fn wf(&self) -> bool {
        self.map.wf()
    }

    pub fn new() -> (r: ChannelMap)
        ensures
            r.wf(),
            r.m() =~= Map::<Seq<u8>, Seq<SignedTransaction>>::empty(),
    {
        let r = ChannelMap { map: OMap::new() };
        proof {
            lemma_entries_map_domain(r.map.entries());
        }
        r
    }

    /// Append a transaction to its sender's queue, opening the queue on
    /// first sight.
    pub fn push_transaction(&mut self, tx: SignedTransaction)
        requires
            old(self).wf(),
        ensures
            final(self).wf(),
            final(self).m() == old(self).m().insert(
                tx.from@,
                (if old(self).m().contains_key(tx.from@) {
                    old(self).m()[tx.from@]
                } else {
                    Seq::empty()
                }).push(tx),
            ),
    {
        let key = clone_bytes(&tx.from.bytes);
        let ghost old_m = self.m();
        let mut bucket: Vec<SignedTransaction> = match self.map.take(&key) {
            Some(v) => v,
            None => Vec::new(),
        };
        let ghost old_bucket = (if old_m.contains_key(tx.from@) {
            old_m[tx.from@]
        } else {
            Seq::<SignedTransaction>::empty()
        });
        proof {
            assert(bucket@ == old_bucket);
        }
        let ghost tx_snap = tx;
        bucket.push(tx);
        self.map.set(key, bucket);
        proof {
            assert(self.m() =~~= old_m.insert(tx_snap.from@, old_bucket.push(tx_snap)));
        }
    }

    /// Package one block's worth: the head of each non-empty queue in
    /// order, up to the cap.
    pub fn package_transactions(&self) -> (r: Vec<SignedTransaction>)
        requires
            self.wf(),
        ensures
            r@.len() == package_heads(self.entries(), PACKAGE_CAP as nat).len(),
            r@.len() <= PACKAGE_CAP,
            forall|i: int|
                0 <= i < r@.len() ==> cstx_eq(
                    r@[i],
                    package_heads(self.entries(), PACKAGE_CAP as nat)[i],
                ),
    {
        let ghost es = self.entries();
        let mut out: Vec<SignedTransaction> = Vec::new();
        let ghost done: Seq<SignedTransaction> = Seq::empty();
        let mut done_v: Ghost<Seq<SignedTransaction>> = Ghost(done);
        let n = self.map.len();
        let mut i: usize = 0;
        proof {
            assert(es.skip(0) =~= es);
            assert(package_heads(es, PACKAGE_CAP as nat) =~= done_v@ + package_heads(
                es.skip(0),
                PACKAGE_CAP as nat,
            ));
        }
        while i < n
            invariant
                self.wf(),
                es == self.entries(),
                n == es.len(),
                i <= n,
                out@.len() == done_v@.len(),
                out@.len() <= PACKAGE_CAP,
                forall|x: int| 0 <= x < out@.len() ==> cstx_eq(out@[x], done_v@[x]),
                package_heads(es, PACKAGE_CAP as nat) == done_v@ + package_heads(
                    es.skip(i as int),
                    (PACKAGE_CAP - out@.len()) as nat,
                ),
            decreases n - i,
        {
            if out.len() >= PACKAGE_CAP {
                proof {
                    assert(package_heads(es.skip(i as int), (PACKAGE_CAP - out@.len()) as nat)
                        =~= Seq::<SignedTransaction>::empty());
                    assert(package_heads(es, PACKAGE_CAP as nat) =~= done_v@);
                }
                return out;
            }
            let bucket = self.map.val_at(i);
            proof {
                assert(es.skip(i as int)[0] == es[i as int]);
                assert(es.skip(i as int).drop_first() =~= es.skip(i + 1 as int));
            }
            if bucket.len() > 0 {
                let head = bucket[0].clone();
                proof {
                    done_v@ = done_v@.push(es[i as int].1@[0]);
                }
                out.push(head);
                proof {
                    assert(package_heads(es, PACKAGE_CAP as nat) =~= done_v@ + package_heads(
                        es.skip(i + 1 as int),
                        (PACKAGE_CAP - out@.len()) as nat,
                    ));
                }
            }
            i = i + 1;
        }
        proof {
            assert(es.skip(n as int) =~= Seq::<(Seq<u8>, Vec<SignedTransaction>)>::empty());
            assert(package_heads(es, PACKAGE_CAP as nat) =~= done_v@);
        }
        out
    }

    /// Reconcile the pool with a committed block: for each of its
    /// transactions in order, cut the sender's queue after the matching
    /// hash, or drop the queue when nothing of it would remain.
    pub fn reset(&mut self, block: &Block)
        requires
            old(self).wf(),
        ensures
            final(self).wf(),
            final(self).m() == reset_all(old(self).m(), block.txs@),
    {
        let n = block.txs.len();
        let mut i: usize = 0;
        proof {
            assert(block.txs@.take(0) =~= Seq::<SignedTransaction>::empty());
        }
        while i < n
            invariant
                self.wf(),
                n == block.txs@.len(),
                i <= n,
                self.m() == reset_all(old(self).m(), block.txs@.take(i as int)),
            decreases n - i,
        {
            let ghost m_pre = self.m();
            let tx = &block.txs[i];
            let from_key = clone_bytes(&tx.from.bytes);
            match self.map.take(&from_key) {
                Some(mut bucket) => {
                    proof {
                        assert(m_pre.contains_key(tx.from@));
                        assert(bucket@ == m_pre[tx.from@]);
                        assert(self.m() =~~= m_pre.remove(tx.from@));
                    }
                    if bucket.len() == 0 {
                        // an empty queue is dropped whole
                    } else {
                        let mut idx: usize = 0;
                        let mut found: bool = false;
                        while idx < bucket.len() && !found
                            invariant
                                idx <= bucket@.len(),
                                found ==> idx < bucket@.len() && bucket@[idx as int].hash@
                                    == tx.hash@,
                                forall|j: int|
                                    0 <= j < (if found {
                                        idx as int
                                    } else {
                                        idx as int
                                    }) ==> bucket@[j].hash@ != tx.hash@,
                            decreases bucket@.len() - idx, (if found {
                                0int
                            } else {
                                1int
                            }),
                        {
                            if bytes_eq(&bucket[idx].hash.bytes, &tx.hash.bytes) {
                                found = true;
                            } else {
                                idx = idx + 1;
                            }
                        }
                        if !found {
                            proof {
                                lemma_find_hash_none(bucket@, tx.hash@);
                            }
                            // an unknown hash leaves the queue intact
                            self.map.set(from_key, bucket);
                            proof {
                                assert(self.m() =~~= m_pre);
                            }
                        } else {
                            proof {
                                lemma_find_hash_first(bucket@, tx.hash@, idx as int);
                            }
                            if idx == bucket.len() - 1 {
                                // the last element matched: drop the queue
                            } else {
                                let tail = bucket.split_off(idx + 1);
                                self.map.set(from_key, tail);
                                proof {
                                    assert(tail@ =~= m_pre[tx.from@].skip(idx + 1 as int));
                                    assert(self.m() =~~= m_pre.insert(
                                        tx.from@,
                                        m_pre[tx.from@].skip(idx + 1 as int),
                                    ));
                                }
                            }
                        }
                    }
                },
                None => {
                    proof {
                        assert(!m_pre.contains_key(tx.from@));
                    }
                },
            }
            proof {
                let s1 = block.txs@.take(i + 1 as int);
                assert(s1.drop_last() =~= block.txs@.take(i as int));
                assert(s1.last() == block.txs@[i as int]);
                assert(self.m() == reset_step(m_pre, tx.from@, tx.hash@));
            }
            i = i + 1;
        }
        proof {
            assert(block.txs@.take(n as int) =~= block.txs@);
        }
    }
}

} // verus!
