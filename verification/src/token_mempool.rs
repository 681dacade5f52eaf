use vstd::prelude::*;
use crate::hashes::blake3_of;
use crate::omap::{OMap, entries_map, lemma_entries_map_domain, lemma_entries_map_at};
use crate::primitives::{Hash256, bytes_eq, clone_bytes};
use crate::token_types::{SignedTransaction, TokenAction, enc_raw_tx, raw_eq};

verus! {

/// The largest cycle budget one transaction may declare.
pub const TX_CYCLE_LIMIT: u64 = 100000;

/// Why the pool turned a transaction away.
#[derive(Clone, Copy, PartialEq, Eq, Structural, Debug)]
pub enum AdmitError {
    InvalidChainId,
    ExceedCycleLimit,
    TxHashMismatch,
    InvalidTransferRequest,
    InvalidSignature,
    InvalidPubKey,
}

/// Whether the compact ECDSA signature verifies over the 32-byte message
/// with the given secp256k1 public key; a function of the three byte strings
/// alone.
pub uninterp spec fn secp_sig_ok(msg: Seq<u8>, sig: Seq<u8>, pk: Seq<u8>) -> bool;

/// Relies on ophelia::Crypto::verify_signature for
/// ophelia_secp256k1::Secp256k1: parses the message, signature and public
/// key and checks the ECDSA signature, deterministically in its arguments.
#[verifier::external_body]
fn secp_verify(msg: &Vec<u8>, sig: &Vec<u8>, pk: &Vec<u8>) -> (r: bool)
    ensures
        r == secp_sig_ok(msg@, sig@, pk@),
{
    <ophelia_secp256k1::Secp256k1 as ophelia::Crypto>::verify_signature(
        msg.as_slice(),
        sig.as_slice(),
        pk.as_slice(),
    ).is_ok()
}

/// A transfer request without a recipient somewhere in the list.
pub open spec fn has_bad_transfer(reqs: Seq<crate::token_types::TransactionRequest>) -> bool {
    exists|i: int|
        0 <= i < reqs.len() && (#[trigger] reqs[i]).action == TokenAction::Transfer
            && reqs[i].to is None
}

/// The admission rule: each check in order, each with its own refusal.
pub open spec fn verify_spec(chain_id: u64, stx: SignedTransaction) -> Result<(), AdmitError> {
    if stx.raw.chain_id != chain_id {
        Err(AdmitError::InvalidChainId)
    } else if stx.raw.cycles_limit > TX_CYCLE_LIMIT {
        Err(AdmitError::ExceedCycleLimit)
    } else if blake3_of(enc_raw_tx(stx.raw)) != stx.tx_hash@ {
        Err(AdmitError::TxHashMismatch)
    } else if has_bad_transfer(stx.raw.requests@) {
        Err(AdmitError::InvalidTransferRequest)
    } else if !secp_sig_ok(stx.tx_hash@, stx.signature@, stx.pub_key@) {
        Err(AdmitError::InvalidSignature)
    } else {
        Ok(())
    }
}

/// The sum of the declared cycle budgets of a transaction list.
pub open spec fn sum_cycles(s: Seq<SignedTransaction>) -> nat
    decreases s.len(),
{
    if s.len() == 0 {
        0
    } else {
        (sum_cycles(s.drop_last()) + s.last().raw.cycles_limit) as nat
    }
}

/// The packaged prefix: walk the pool in order and take each transaction
/// while the running sum stays within the budget; stop at the first one that
/// would exceed it.
pub open spec fn package_rec(
    s: Seq<(Seq<u8>, SignedTransaction)>,
    limit: u64,
    sum: nat,
) -> Seq<SignedTransaction>
    decreases s.len(),
{
    if s.len() == 0 {
        Seq::empty()
    } else if sum + s[0].1.raw.cycles_limit <= limit {
        seq![s[0].1] + package_rec(s.drop_first(), limit, (sum + s[0].1.raw.cycles_limit) as nat)
    } else {
        Seq::empty()
    }
}

/// Two signed transactions that carry the same values.
pub open spec fn stx_eq(a: SignedTransaction, b: SignedTransaction) -> bool {
    &&& raw_eq(a.raw, b.raw)
    &&& a.tx_hash@ == b.tx_hash@
    &&& a.pub_key@ == b.pub_key@
    &&& a.signature@ == b.signature@
}

/// The token mempool: admitted transactions keyed by their hash, walked in
/// admission order.
pub struct MemPoolImpl {
    tx_map: OMap<SignedTransaction>,
    chain_id: u64,
}

impl MemPoolImpl {
    /// The pool's entries in admission order.
    pub closed spec fn entries(&self) -> Seq<(Seq<u8>, SignedTransaction)> {
        self.tx_map.entries()
    }

    /// The pool as a map from transaction hash to transaction.
    pub open spec fn m(&self) -> Map<Seq<u8>, SignedTransaction> {
        entries_map(self.entries())
    }

    pub closed spec fn wf(&self) -> bool {
        &&& self.tx_map.wf()
        &&& forall|i: int|
            0 <= i < self.tx_map.entries().len() ==> (#[trigger] self.tx_map.entries()[i]).1.wf()
                && !has_bad_transfer(self.tx_map.entries()[i].1.raw.requests@)
    }

    /// The chain this pool admits transactions for.
    pub closed spec fn id(&self) -> u64 {
        self.chain_id
    }

    pub fn new(pool_size: usize, id: u64) -> (r: MemPoolImpl)
        ensures
            r.wf(),
            r.id() == id,
            r.entries() =~= Seq::<(Seq<u8>, SignedTransaction)>::empty(),
    {
        let _ = pool_size;
        MemPoolImpl { tx_map: OMap::new(), chain_id: id }
    }

    /// How many transactions the pool holds.
    pub fn len(&self) -> (r: usize)
        requires
            self.wf(),
        ensures
            r == self.entries().len(),
    {
        self.tx_map.len()
    }

    /// The admission rule, answered exactly as `verify_spec` says.
    fn verify_tx(&self, stx: &SignedTransaction) -> (r: Result<(), AdmitError>)
        ensures
            r == verify_spec(self.id(), *stx),
            r is Ok ==> stx.tx_hash@.len() == 32,
    {
        if stx.chain_id() != self.chain_id {
            return Err(AdmitError::InvalidChainId);
        }
        if stx.cycle_limit() > TX_CYCLE_LIMIT {
            return Err(AdmitError::ExceedCycleLimit);
        }
        let encoded = crate::token_types::encode_raw_tx(&stx.raw);
        let digest = crate::hashes::blake3_bytes(&encoded);
        if !bytes_eq(&digest, &stx.tx_hash.bytes) {
            return Err(AdmitError::TxHashMismatch);
        }
        let mut i: usize = 0;
        while i < stx.raw.requests.len()
            invariant
                stx.raw.chain_id == self.id(),
                stx.raw.cycles_limit <= TX_CYCLE_LIMIT,
                blake3_of(enc_raw_tx(stx.raw)) == stx.tx_hash@,
                stx.tx_hash@.len() == 32,
                i <= stx.raw.requests@.len(),
                forall|j: int|
                    0 <= j < i ==> !((#[trigger] stx.raw.requests@[j]).action
                        == TokenAction::Transfer && stx.raw.requests@[j].to is None),
            decreases stx.raw.requests@.len() - i,
        {
            let req = &stx.raw.requests[i];
            let is_transfer = match req.action {
                TokenAction::Transfer => true,
                _ => false,
            };
            if is_transfer && req.to.is_none() {
                proof {
                    assert(stx.raw.requests@[i as int].action == TokenAction::Transfer
                        && stx.raw.requests@[i as int].to is None);
                    assert(has_bad_transfer(stx.raw.requests@));
                }
                return Err(AdmitError::InvalidTransferRequest);
            }
            i = i + 1;
        }
        proof {
            assert(!has_bad_transfer(stx.raw.requests@));
        }
        if !secp_verify(&stx.tx_hash.bytes, &stx.signature, &stx.pub_key) {
            return Err(AdmitError::InvalidSignature);
        }
        Ok(())
    }

    /// Admit a transaction: verify it, then store it under its hash. A
    /// transaction whose declared hash is not the digest of its body is
    /// refused, as is one for another chain, over the cycle cap, with a
    /// broken transfer, or with a bad signature.
    pub fn insert(&mut self, stx: SignedTransaction) -> (r: Result<(), AdmitError>)
        requires
            old(self).wf(),
            stx.raw.wf(),
        ensures
            final(self).wf(),
            final(self).id() == old(self).id(),
            r == verify_spec(old(self).id(), stx),
            blake3_of(enc_raw_tx(stx.raw)) != stx.tx_hash@ ==> r is Err,
            (match r {
                Ok(()) => final(self).m() == old(self).m().insert(stx.tx_hash@, stx),
                Err(_) => final(self).entries() == old(self).entries(),
            }),
    {
        match self.verify_tx(&stx) {
            Ok(()) => {
                let ghost pre = self.tx_map.entries();
                proof {
                    self.tx_map.lemma_wf_distinct();
                }
                let key = clone_bytes(&stx.tx_hash.bytes);
                let ghost v = stx;
                self.tx_map.set(key, stx);
                proof {
                    crate::omap::lemma_set_entry_keys(pre, self.tx_map.entries(), v.tx_hash@, v);
                    assert forall|i: int| 0 <= i < self.tx_map.entries().len() implies (
                    #[trigger] self.tx_map.entries()[i]).1.wf() && !has_bad_transfer(
                        self.tx_map.entries()[i].1.raw.requests@,
                    ) by {
                        if self.tx_map.entries()[i] == (v.tx_hash@, v) {
                            assert(v.wf());
                            assert(verify_spec(old(self).id(), v) == Ok::<(), AdmitError>(()));
                            assert(!has_bad_transfer(v.raw.requests@));
                        } else {
                            let y = choose|y: int|
                                0 <= y < pre.len() && self.tx_map.entries()[i] == pre[y];
                            assert(pre[y] == old(self).tx_map.entries()[y]);
                        }
                    }
                }
                Ok(())
            },
            Err(e) => Err(e),
        }
    }

    /// Package a block's worth of transactions under the cycle budget.
    pub fn package(&self, total_limit: u64) -> (r: Vec<SignedTransaction>)
        requires
            self.wf(),
        ensures
            r@.len() == package_rec(self.entries(), total_limit, 0).len(),
            r@.len() <= self.entries().len(),
            forall|i: int|
                0 <= i < r@.len() ==> stx_eq(
                    r@[i],
                    package_rec(self.entries(), total_limit, 0)[i],
                ),
            forall|i: int|
                0 <= i < r@.len() ==> (#[trigger] r@[i]).wf() && crate::token_executor::transfers_carry_to(r@[i].raw.requests@),
            sum_cycles(package_rec(self.entries(), total_limit, 0)) <= total_limit,
            package_rec(self.entries(), total_limit, 0).len() < self.entries().len()
                ==> sum_cycles(package_rec(self.entries(), total_limit, 0)) + self.entries()[
                package_rec(self.entries(), total_limit, 0).len() as int
            ].1.raw.cycles_limit > total_limit,
    {
        let ghost es = self.entries();
        let mut out: Vec<SignedTransaction> = Vec::new();
        let mut sum: u64 = 0;
        let n = self.tx_map.len();
        let mut i: usize = 0;
        proof {
            lemma_package_skip(es, total_limit, 0, 0);
        }
        while i < n
            invariant
                self.wf(),
                es == self.entries(),
                n == es.len(),
                i <= n,
                sum <= total_limit,
                out@.len() == i,
                sum == sum_cycles_of(es, i as int),
                package_rec(es, total_limit, 0) == Seq::new(i as nat, |x: int| es[x].1)
                    + package_rec(es.skip(i as int), total_limit, sum as nat),
                forall|x: int| 0 <= x < i ==> stx_eq(out@[x], es[x].1),
                forall|x: int|
                    0 <= x < i ==> (#[trigger] out@[x]).wf()
                        && crate::token_executor::transfers_carry_to(out@[x].raw.requests@),
            decreases n - i,
        {
            let stx = self.tx_map.val_at(i);
            let limit = stx.cycle_limit();
            if !(limit <= total_limit && sum <= total_limit - limit) {
                proof {
                    assert(es.skip(i as int)[0] == es[i as int]);
                    assert(package_rec(es.skip(i as int), total_limit, sum as nat)
                        =~= Seq::<SignedTransaction>::empty());
                    assert(package_rec(es, total_limit, 0) =~= Seq::new(
                        i as nat,
                        |x: int| es[x].1,
                    ));
                    lemma_sum_of_prefix(es, i as int);
                }
                return out;
            }
            let cl = stx.clone();
            proof {
                assert(es[i as int].1.wf() && !has_bad_transfer(es[i as int].1.raw.requests@));
                assert(cl.wf());
                assert(crate::token_executor::transfers_carry_to(cl.raw.requests@)) by {
                    assert forall|x: int|
                        0 <= x < cl.raw.requests@.len() && (#[trigger] cl.raw.requests@[x]).action
                            == TokenAction::Transfer implies cl.raw.requests@[x].to is Some by {
                        assert(crate::token_types::req_eq(
                            cl.raw.requests@[x],
                            es[i as int].1.raw.requests@[x],
                        ));
                        assert(es[i as int].1.raw.requests@[x].action == TokenAction::Transfer);
                        assert(es[i as int].1.raw.requests@[x].to is Some) by {
                            if es[i as int].1.raw.requests@[x].to is None {
                                assert(has_bad_transfer(es[i as int].1.raw.requests@));
                            }
                        }
                    }
                }
            }
            out.push(cl);
            proof {
                assert(es.skip(i as int)[0] == es[i as int]);
                assert(es.skip(i as int).drop_first() =~= es.skip(i + 1 as int));
                assert(package_rec(es.skip(i as int), total_limit, sum as nat) == seq![
                    es[i as int].1,
                ] + package_rec(es.skip(i + 1 as int), total_limit, (sum + limit) as nat));
                assert(package_rec(es, total_limit, 0) =~= Seq::new(
                    (i + 1) as nat,
                    |x: int| es[x].1,
                ) + package_rec(es.skip(i + 1 as int), total_limit, (sum + limit) as nat));
                let pv = Seq::new((i + 1) as nat, |x: int| es[x].1);
                assert(pv.drop_last() =~= Seq::new(i as nat, |x: int| es[x].1));
                assert(pv.last() == es[i as int].1);
                assert(sum_cycles_of(es, i + 1 as int) == sum_cycles_of(es, i as int)
                    + es[i as int].1.raw.cycles_limit);
            }
            sum = sum + limit;
            i = i + 1;
        }
        proof {
            assert(es.skip(n as int) =~= Seq::<(Seq<u8>, SignedTransaction)>::empty());
            assert(package_rec(es, total_limit, 0) =~= Seq::new(n as nat, |x: int| es[x].1));
            lemma_sum_of_prefix(es, n as int);
        }
        out
    }

    /// Drop each listed hash from the pool; hashes it does not hold are
    /// silently ignored.
    pub fn remove(&mut self, hashes: &Vec<Hash256>)
        requires
            old(self).wf(),
        ensures
            final(self).wf(),
            final(self).id() == old(self).id(),
            final(self).m() == remove_all(old(self).m(), Seq::new(hashes@.len(), |i: int| hashes@[i]@)),
    {
        let ghost hs = Seq::new(hashes@.len(), |i: int| hashes@[i]@);
        let n = hashes.len();
        let mut i: usize = 0;
        proof {
            assert(hs.take(0) =~= Seq::<Seq<u8>>::empty());
        }
        while i < n
            invariant
                self.wf(),
                self.id() == old(self).id(),
                hs == Seq::new(hashes@.len(), |x: int| hashes@[x]@),
                n == hashes@.len(),
                i <= n,
                self.m() == remove_all(old(self).m(), hs.take(i as int)),
            decreases n - i,
        {
            let ghost pre = self.tx_map.entries();
            proof {
                self.tx_map.lemma_wf_distinct();
            }
            self.tx_map.remove(&hashes[i].bytes);
            proof {
                crate::omap::lemma_remove_subset(pre, self.tx_map.entries(), hashes@[i as int]@);
                assert forall|x: int| 0 <= x < self.tx_map.entries().len() implies (
                #[trigger] self.tx_map.entries()[x]).1.wf() && !has_bad_transfer(
                    self.tx_map.entries()[x].1.raw.requests@,
                ) by {
                    let y = choose|y: int|
                        0 <= y < pre.len() && self.tx_map.entries()[x] == pre[y];
                }
                let s1 = hs.take(i + 1 as int);
                assert(s1.drop_last() =~= hs.take(i as int));
                assert(s1.last() == hs[i as int]);
            }
            i = i + 1;
        }
        proof {
            assert(hs.take(n as int) =~= hs);
        }
    }
}

/// A map with every listed key removed.
pub open spec fn remove_all(
    m: Map<Seq<u8>, SignedTransaction>,
    keys: Seq<Seq<u8>>,
) -> Map<Seq<u8>, SignedTransaction>
    decreases keys.len(),
{
    if keys.len() == 0 {
        m
    } else {
        remove_all(m, keys.drop_last()).remove(keys.last())
    }
}

/// The cycle sum of the first `i` pool entries.
pub open spec fn sum_cycles_of(s: Seq<(Seq<u8>, SignedTransaction)>, i: int) -> nat {
    sum_cycles(Seq::new(i as nat, |x: int| s[x].1))
}

proof fn lemma_sum_of_prefix(s: Seq<(Seq<u8>, SignedTransaction)>, i: int)
    requires
        0 <= i <= s.len(),
    ensures
        sum_cycles(Seq::new(i as nat, |x: int| s[x].1)) == sum_cycles_of(s, i),
{
}

proof fn lemma_package_skip(s: Seq<(Seq<u8>, SignedTransaction)>, limit: u64, sum: nat, i: int)
    requires
        i == 0,
    ensures
        package_rec(s, limit, sum) == Seq::new(0, |x: int| s[x].1) + package_rec(
            s.skip(0),
            limit,
            sum,
        ),
{
    assert(s.skip(0) =~= s);
    assert(Seq::new(0, |x: int| s[x].1) + package_rec(s.skip(0), limit, sum) =~= package_rec(
        s,
        limit,
        sum,
    ));
}

/// Packaging stays within its budget: the packaged cycles never exceed the
/// limit offered, starting from any running sum.
pub proof fn lemma_package_bounded(s: Seq<(Seq<u8>, SignedTransaction)>, limit: u64, sum: nat)
    requires
        sum <= limit,
    ensures
        sum + sum_cycles(package_rec(s, limit, sum)) <= limit,
    decreases s.len(),
{
    if s.len() > 0 && sum + s[0].1.raw.cycles_limit <= limit {
        let rest = package_rec(s.drop_first(), limit, (sum + s[0].1.raw.cycles_limit) as nat);
        lemma_package_bounded(s.drop_first(), limit, (sum + s[0].1.raw.cycles_limit) as nat);
        lemma_sum_cycles_cons(s[0].1, rest);
    }
}

proof fn lemma_sum_cycles_cons(h: SignedTransaction, t: Seq<SignedTransaction>)
    ensures
        sum_cycles(seq![h] + t) == h.raw.cycles_limit + sum_cycles(t),
    decreases t.len(),
{
    if t.len() == 0 {
        assert(seq![h] + t =~= seq![h]);
        assert(sum_cycles(seq![h]) == sum_cycles(seq![h].drop_last()) + h.raw.cycles_limit);
        assert(seq![h].drop_last() =~= Seq::<SignedTransaction>::empty());
    } else {
        assert((seq![h] + t).drop_last() =~= seq![h] + t.drop_last());
        assert((seq![h] + t).last() == t.last());
        lemma_sum_cycles_cons(h, t.drop_last());
    }
}

/// When the whole pool fits in the budget, packaging takes everything: an
/// admitted transaction that was not removed is in the packaged list.
pub proof fn lemma_package_complete(s: Seq<(Seq<u8>, SignedTransaction)>, limit: u64, sum: nat)
    requires
        sum + sum_cycles(Seq::new(s.len(), |x: int| s[x].1)) <= limit,
    ensures
        package_rec(s, limit, sum) =~= Seq::new(s.len(), |x: int| s[x].1),
    decreases s.len(),
{
    if s.len() > 0 {
        let vals = Seq::new(s.len(), |x: int| s[x].1);
        let tail_vals = Seq::new(s.drop_first().len(), |x: int| s.drop_first()[x].1);
        assert(vals =~= seq![s[0].1] + tail_vals);
        lemma_sum_cycles_cons(s[0].1, tail_vals);
        assert(sum + s[0].1.raw.cycles_limit + sum_cycles(tail_vals) <= limit);
        lemma_package_complete(s.drop_first(), limit, (sum + s[0].1.raw.cycles_limit) as nat);
    }
}

/// An admitted transaction that was not removed is in the next packaging,
/// whenever the budget covers the whole pool.
pub proof fn lemma_admitted_tx_is_packaged(pool: MemPoolImpl, limit: u64, h: Seq<u8>)
    requires
        pool.wf(),
        pool.m().contains_key(h),
        sum_cycles(Seq::new(pool.entries().len(), |x: int| pool.entries()[x].1)) <= limit,
    ensures
        exists|i: int|
            0 <= i < package_rec(pool.entries(), limit, 0).len() && package_rec(
                pool.entries(),
                limit,
                0,
            )[i] == pool.m()[h],
{
    let es = pool.entries();
    lemma_package_complete(es, limit, 0);
    pool.tx_map.lemma_wf_distinct();
    lemma_entries_map_domain(es);
    let i = choose|i: int| 0 <= i < es.len() && es[i].0 == h;
    lemma_entries_map_at(es, i);
    assert(package_rec(es, limit, 0)[i] == es[i].1);
}

} // verus!
