use vstd::prelude::*;
use crate::channel_mempool::ChannelMap;
use crate::channel_types::{CreateChannel, RawTransaction, SignedTransaction, enc_c_raw_tx, raw_ctx_eq};
use crate::hashes::blake2b_of;
use crate::oracle::ChannelOracle;
use crate::primitives::Addr;
use crate::relay::ChannelRelay;
use crate::wallet::{Wallet, signed_by};

verus! {

/// The digest a channel-open request's transaction body hashes to.
pub open spec fn create_body_hash(c: CreateChannel) -> Seq<u8> {
    blake2b_of(enc_c_raw_tx(RawTransaction::CreateChannel(c)))
}

/// Whether a key can sign every listed channel-open request's body.
pub open spec fn all_signable(cs: Seq<CreateChannel>, sk: Seq<u8>) -> bool {
    forall|i: int| 0 <= i < cs.len() ==> signed_by(create_body_hash(#[trigger] cs[i]), sk) is Some
}

/// One enqueued transaction carries one channel-open request: sent by the
/// relayer, hashed over its body's wire form, signed deterministically by
/// the relayer's key.
pub open spec fn carries_create(
    t: SignedTransaction,
    c: CreateChannel,
    addr: Seq<u8>,
    sk: Seq<u8>,
) -> bool {
    &&& raw_ctx_eq(t.raw, RawTransaction::CreateChannel(c))
    &&& t.from@ == addr
    &&& t.hash@ == create_body_hash(c)
    &&& signed_by(t.hash@, sk) == Some(t.sig@)
}

/// The relayer: a wallet that turns the oracle's pending channel-open
/// requests into signed transactions for the channel mempool.
pub struct Relayer {
    wallet: Wallet,
}

impl Relayer {
    pub closed spec fn wf(&self) -> bool {
        self.wallet.wf()
    }

    /// The relayer's signing key bytes, for contracts.
    pub closed spec fn sk_spec(&self) -> Seq<u8> {
        self.wallet.sk_spec()
    }

    /// The relayer's address, for contracts.
    pub closed spec fn addr_spec(&self) -> Seq<u8> {
        self.wallet.addr_spec()
    }

    /// A relayer over a fresh random key.
    pub fn new() -> (r: Relayer)
        ensures
            r.wf(),
    {
        Relayer { wallet: Wallet::random() }
    }

    pub fn addr(&self) -> (r: Addr)
        requires
            self.wf(),
        ensures
            r.wf(),
            r@ == self.addr_spec(),
    {
        self.wallet.addr()
    }

    /// Drain the pending channel-open requests: sign each as a create
    /// transaction, enqueue it under the relayer's address in request order,
    /// then clear the pending list. The drain succeeds exactly when every
    /// pending body signs; a signing fault stops it with the pending list
    /// untouched.
    pub fn relay_l2_create_channel(
        &self,
        oracle: &mut ChannelOracle,
        relay: &ChannelRelay,
        mempool: &mut ChannelMap,
    ) -> (r: bool)
        requires
            self.wf(),
            old(mempool).wf(),
        ensures
            final(mempool).wf(),
            r == all_signable(old(oracle).pending_creates_spec(), self.sk_spec()),
            r ==> final(oracle).pending_creates_spec() =~= Seq::<CreateChannel>::empty(),
            r ==> final(oracle).confirmed_blocks_spec() == old(oracle).confirmed_blocks_spec()
                && final(oracle).confirmed_withdrawals_spec() == old(oracle).confirmed_withdrawals_spec() && final(oracle).pending_withdrawals_spec() == old(oracle).pending_withdrawals_spec(),
            !r ==> *final(oracle) == *old(oracle),
            r ==> queue_len(final(mempool).m(), self.addr_spec()) == queue_len(
                old(mempool).m(),
                self.addr_spec(),
            ) + old(oracle).pending_creates_spec().len(),
            r ==> (forall|i: int|
                0 <= i < old(oracle).pending_creates_spec().len() ==> carries_create(
                    final(mempool).m()[self.addr_spec()][queue_len(old(mempool).m(), self.addr_spec()) + i],
                    #[trigger] old(oracle).pending_creates_spec()[i],
                    self.addr_spec(),
                    self.sk_spec(),
                )),
            r ==> (forall|i: int|
                0 <= i < queue_len(old(mempool).m(), self.addr_spec())
                    ==> #[trigger] final(mempool).m()[self.addr_spec()][i] == old(mempool).m()[self.addr_spec()][i]),
            forall|k: Seq<u8>|
                k != self.addr_spec() ==> (((#[trigger] final(mempool).m().contains_key(k))
                    <==> old(mempool).m().contains_key(k)) && (old(mempool).m().contains_key(k)
                    ==> final(mempool).m()[k] == old(mempool).m()[k])),
    {
        let ghost pending = oracle.pending_creates_spec();
        let ghost addr = self.addr_spec();
        let ghost sk = self.sk_spec();
        let ghost base = queue_len(old(mempool).m(), addr);
        let n = oracle.pending_l2_create_channels().len();
        let mut i: usize = 0;
        while i < n
            invariant
                self.wf(),
                mempool.wf(),
                pending == oracle.pending_creates_spec(),
                addr == self.addr_spec(),
                sk == self.sk_spec(),
                base == queue_len(old(mempool).m(), addr),
                n == pending.len(),
                i <= n,
                forall|j: int|
                    0 <= j < i ==> signed_by(create_body_hash(#[trigger] pending[j]), sk) is Some,
                queue_len(mempool.m(), addr) == base + i,
                forall|j: int|
                    0 <= j < i ==> carries_create(
                        mempool.m()[addr][base + j],
                        #[trigger] pending[j],
                        addr,
                        sk,
                    ),
                forall|j: int|
                    0 <= j < base ==> #[trigger] mempool.m()[addr][j] == old(mempool).m()[addr][j],
                forall|k: Seq<u8>|
                    k != addr ==> (((#[trigger] mempool.m().contains_key(k)) <==> old(mempool).m().contains_key(k)) && (old(mempool).m().contains_key(k)
                        ==> mempool.m()[k] == old(mempool).m()[k])),
            decreases n - i,
        {
            let create = oracle.pending_l2_create_channels()[i].clone();
            proof {
                assert(raw_ctx_eq(
                    RawTransaction::CreateChannel(create),
                    RawTransaction::CreateChannel(pending[i as int]),
                ));
                crate::channel_types::lemma_raw_ctx_eq_enc(
                    RawTransaction::CreateChannel(create),
                    RawTransaction::CreateChannel(pending[i as int]),
                );
            }
            let tx = match self.wallet.sign_tx(RawTransaction::CreateChannel(create)) {
                Some(t) => t,
                None => {
                    proof {
                        assert(signed_by(create_body_hash(pending[i as int]), sk) is None);
                        assert(!all_signable(pending, sk));
                    }
                    return false;
                },
            };
            proof {
                crate::channel_types::lemma_raw_ctx_eq_enc(
                    tx.raw,
                    RawTransaction::CreateChannel(pending[i as int]),
                );
                assert(carries_create(tx, pending[i as int], addr, sk));
            }
            let ghost tx_snap = tx;
            let ghost m_pre = mempool.m();
            let ghost q_pre = (if mempool.m().contains_key(addr) {
                mempool.m()[addr]
            } else {
                Seq::<SignedTransaction>::empty()
            });
            relay.submit_l2_create_channel(mempool, tx);
            proof {
                assert(mempool.m()[addr] == q_pre.push(tx_snap));
                assert(mempool.m()[addr][base + i as int] == tx_snap);
                assert forall|k: Seq<u8>| k != addr implies (((
                #[trigger] mempool.m().contains_key(k)) <==> old(mempool).m().contains_key(k))
                    && (old(mempool).m().contains_key(k) ==> mempool.m()[k] == old(mempool).m()[k])) by {
                    assert(mempool.m().contains_key(k) <==> m_pre.contains_key(k));
                    assert(m_pre.contains_key(k) <==> old(mempool).m().contains_key(k));
                    if old(mempool).m().contains_key(k) {
                        assert(mempool.m()[k] == m_pre[k]);
                        assert(m_pre[k] == old(mempool).m()[k]);
                    }
                }
            }
            i = i + 1;
        }
        proof {
            assert(all_signable(pending, sk));
        }
        oracle.set_pending_l2_create_channels(Vec::new());
        true
    }

    /// Look at the pending withdrawals; turning them into token-tier
    /// transactions is not wired yet, so nothing else happens.
    pub fn relay_l3_withdrawal(&self, oracle: &ChannelOracle) {
        let _ = oracle.pending_l3_withdrawals().len();
    }
}

/// The length of a sender's queue; zero for a sender the pool does not know.
pub open spec fn queue_len(m: Map<Seq<u8>, Seq<SignedTransaction>>, k: Seq<u8>) -> nat {
    if m.contains_key(k) {
        m[k].len()
    } else {
        0
    }
}

} // verus!
