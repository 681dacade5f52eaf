use vstd::prelude::*;
use crate::omap::{OMap, entries_map, lemma_entries_map_domain, lemma_entries_map_at};
use crate::primitives::{Addr, Hash256, Uint256, clone_bytes};
use crate::token_state::{TokenState, state_bal, balances_pairs, balance_trie_entries,
    state_trie_entries, get_balance, balance_root_of, state_root_of, lemma_state_entry_wf,
    put_account, AccountEntry};
use crate::trie::mpt_root_of;
use crate::token_types::{
    BlockExecuteResponse, ExecuteResponse, FlowDirection, Log, SignedTransaction, TokenBalance,
    TransactionError, TransactionRequest, TokenAction, gen_log, gen_resp, resp_payload,
};

verus! {

/// The executor's view of balances: address to token to (locked, active).
pub type BalMap = Map<Seq<u8>, Map<Seq<u8>, (nat, nat)>>;

/// The balance a cache answers; the zero pair when the entry is missing.
pub open spec fn cache_get(c: BalMap, a: Seq<u8>, t: Seq<u8>) -> (nat, nat) {
    if c.contains_key(a) && c[a].contains_key(t) {
        c[a][t]
    } else {
        (0, 0)
    }
}

/// A cache with one entry written.
pub open spec fn cache_set(c: BalMap, a: Seq<u8>, t: Seq<u8>, b: (nat, nat)) -> BalMap {
    c.insert(
        a,
        (if c.contains_key(a) {
            c[a]
        } else {
            Map::empty()
        }).insert(t, b),
    )
}

/// Lazy loading: make sure the entry exists, and fill it from the committed
/// state when it still reads as the zero pair.
pub open spec fn seeded(bm: BalMap, c: BalMap, a: Seq<u8>, t: Seq<u8>) -> BalMap {
    let cur = cache_get(c, a, t);
    if cur == ((0nat, 0nat)) {
        cache_set(c, a, t, state_bal(bm, a, t))
    } else {
        cache_set(c, a, t, cur)
    }
}

/// What one request does to the transaction cache, or why it fails.
pub open spec fn step_request(bm: BalMap, c: BalMap, req: TransactionRequest) -> Result<
    BalMap,
    TransactionError,
> {
    let a = req.address@;
    let t = req.token_id@;
    let amt = req.amount.val();
    let c1 = seeded(bm, c, a, t);
    let bal = cache_get(c1, a, t);
    match req.action {
        TokenAction::Mint => {
            if bal.1 + amt
                < 0x10000000000000000000000000000000000000000000000000000000000000000nat {
                Ok(cache_set(c1, a, t, (bal.0, (bal.1 + amt) as nat)))
            } else {
                Err(TransactionError::BalanceOverflow)
            }
        },
        TokenAction::Lock => {
            if bal.1 < amt {
                Err(TransactionError::ActiveAmountLessThanLock)
            } else if bal.0 + amt
                >= 0x10000000000000000000000000000000000000000000000000000000000000000nat {
                Err(TransactionError::BalanceOverflow)
            } else {
                Ok(cache_set(c1, a, t, (((bal.0 + amt) as nat), ((bal.1 - amt) as nat))))
            }
        },
        TokenAction::Unlock => {
            if bal.0 < amt {
                Err(TransactionError::LockedAmountLessThanUnlock)
            } else if bal.1 + amt
                >= 0x10000000000000000000000000000000000000000000000000000000000000000nat {
                Err(TransactionError::BalanceOverflow)
            } else {
                Ok(cache_set(c1, a, t, (((bal.0 - amt) as nat), ((bal.1 + amt) as nat))))
            }
        },
        TokenAction::Divert => {
            if bal.1 < amt {
                Err(TransactionError::ActiveAmountLessThanDivert)
            } else {
                Ok(cache_set(c1, a, t, (bal.0, ((bal.1 - amt) as nat))))
            }
        },
        TokenAction::Transfer => {
            match req.to {
                Some(to) => {
                    let c2 = seeded(bm, c1, to@, t);
                    let sb = cache_get(c2, a, t);
                    if sb.1 < amt {
                        Err(TransactionError::ActiveAmountLessThanTransfer)
                    } else {
                        let c3 = cache_set(c2, a, t, (sb.0, ((sb.1 - amt) as nat)));
                        let rb = cache_get(c3, to@, t);
                        if rb.1 + amt
                            >= 0x10000000000000000000000000000000000000000000000000000000000000000nat {
                            Err(TransactionError::BalanceOverflow)
                        } else {
                            Ok(cache_set(c3, to@, t, (rb.0, ((rb.1 + amt) as nat))))
                        }
                    }
                },
                None => Err(TransactionError::ActiveAmountLessThanTransfer),
            }
        },
    }
}

/// A request sequence applied in order; the first failure wins.
pub open spec fn run_reqs(bm: BalMap, c: BalMap, reqs: Seq<TransactionRequest>) -> Result<
    BalMap,
    TransactionError,
>
    decreases reqs.len(),
{
    if reqs.len() == 0 {
        Ok(c)
    } else {
        match run_reqs(bm, c, reqs.drop_last()) {
            Ok(c1) => step_request(bm, c1, reqs.last()),
            Err(e) => Err(e),
        }
    }
}

/// What one transaction does to the two caches: on success its edits join
/// the block cache; on failure the transaction cache alone is cleared.
pub open spec fn step_tx(bm: BalMap, c: BalMap, blk: BalMap, tx: SignedTransaction) -> (
    BalMap,
    BalMap,
    Option<TransactionError>,
) {
    match run_reqs(bm, c, tx.raw.requests@) {
        Ok(c1) => (c1, blk.union_prefer_right(c1), None),
        Err(e) => (Map::empty(), blk, Some(e)),
    }
}

/// A whole block of transactions run against one committed state.
pub open spec fn run_txs(bm: BalMap, txs: Seq<SignedTransaction>) -> (
    BalMap,
    BalMap,
    Seq<Option<TransactionError>>,
)
    decreases txs.len(),
{
    if txs.len() == 0 {
        (Map::<Seq<u8>, Map<Seq<u8>, (nat, nat)>>::empty(), Map::<
            Seq<u8>,
            Map<Seq<u8>, (nat, nat)>,
        >::empty(), Seq::<Option<TransactionError>>::empty())
    } else {
        let prior = run_txs(bm, txs.drop_last());
        let stepped = step_tx(bm, prior.0, prior.1, txs.last());
        (stepped.0, stepped.1, prior.2.push(stepped.2))
    }
}

/// One address's balances after the block cache overrides the committed
/// map, token by token.
pub open spec fn merged_at(bm: BalMap, blk: BalMap, a: Seq<u8>) -> Map<Seq<u8>, (nat, nat)> {
    (if bm.contains_key(a) {
        bm[a]
    } else {
        Map::empty()
    }).union_prefer_right(blk[a])
}

/// The balances after a block commits: the block cache's entries override
/// the committed ones, account by account and token by token.
pub open spec fn committed_bal(bm: BalMap, blk: BalMap) -> BalMap {
    Map::new(
        |a: Seq<u8>| bm.contains_key(a) || blk.contains_key(a),
        |a: Seq<u8>|
            if blk.contains_key(a) {
                merged_at(bm, blk, a)
            } else {
                bm[a]
            },
    )
}

/// The balance-trie roots after a block commits: every account the block
/// cache touched hashes to the root of its merged balances, the rest keep
/// their roots.
pub open spec fn committed_roots(
    roots: Map<Seq<u8>, Seq<u8>>,
    bm: BalMap,
    blk: BalMap,
) -> Map<Seq<u8>, Seq<u8>> {
    Map::new(
        |a: Seq<u8>| roots.contains_key(a) || blk.contains_key(a),
        |a: Seq<u8>|
            if blk.contains_key(a) {
                mpt_root_of(balance_trie_entries(merged_at(bm, blk, a)))
            } else {
                roots[a]
            },
    )
}

/// What a response must say of its transaction's outcome.
pub open spec fn resp_matches(
    r: ExecuteResponse,
    tx: SignedTransaction,
    e: Option<TransactionError>,
) -> bool {
    &&& r.tx_hash@ == tx.tx_hash@
    &&& match e {
        None => r.error is None && r.ret@ == resp_payload(tx.tx_hash@),
        Some(te) => (match r.error {
            Some(ee) => ee.error_code == te.code_spec() && ee.error_message@
                == te.message_spec(),
            None => false,
        }) && r.ret@.len() == 0,
    }
}

/// Transactions fit for execution: well-formed, with every transfer naming
/// its recipient.
pub open spec fn txs_wf(txs: Seq<SignedTransaction>) -> bool {
    forall|i: int|
        0 <= i < txs.len() ==> (#[trigger] txs[i]).wf() && transfers_carry_to(
            txs[i].raw.requests@,
        )
}

/// An error propagated by a prefix decides the whole sequence.
pub proof fn lemma_run_reqs_err(
    bm: BalMap,
    c: BalMap,
    reqs: Seq<TransactionRequest>,
    k: int,
)
    requires
        0 <= k <= reqs.len(),
        run_reqs(bm, c, reqs.take(k)) is Err,
    ensures
        run_reqs(bm, c, reqs) == run_reqs(bm, c, reqs.take(k)),
    decreases reqs.len() - k,
{
    if k < reqs.len() {
        assert(reqs.take(k + 1).drop_last() =~= reqs.take(k));
        lemma_run_reqs_err(bm, c, reqs, k + 1);
    } else {
        assert(reqs.take(k) =~= reqs);
    }
}

/// A block run answers one error slot per transaction.
pub proof fn lemma_run_txs_len(bm: BalMap, txs: Seq<SignedTransaction>)
    ensures
        run_txs(bm, txs).2.len() == txs.len(),
    decreases txs.len(),
{
    if txs.len() > 0 {
        lemma_run_txs_len(bm, txs.drop_last());
    }
}

/// Requests that carry the same values step the caches the same way.
pub proof fn lemma_step_request_congruence(
    bm: BalMap,
    c: BalMap,
    a: TransactionRequest,
    b: TransactionRequest,
)
    requires
        crate::token_types::req_eq(a, b),
    ensures
        step_request(bm, c, a) == step_request(bm, c, b),
{
}

proof fn lemma_run_reqs_congruence(
    bm: BalMap,
    c: BalMap,
    a: Seq<TransactionRequest>,
    b: Seq<TransactionRequest>,
)
    requires
        a.len() == b.len(),
        forall|i: int| 0 <= i < a.len() ==> crate::token_types::req_eq(a[i], b[i]),
    ensures
        run_reqs(bm, c, a) == run_reqs(bm, c, b),
    decreases a.len(),
{
    if a.len() > 0 {
        assert(forall|i: int|
            0 <= i < a.drop_last().len() ==> crate::token_types::req_eq(
                a.drop_last()[i],
                b.drop_last()[i],
            ));
        lemma_run_reqs_congruence(bm, c, a.drop_last(), b.drop_last());
        lemma_step_request_congruence(
            bm,
            (match run_reqs(bm, c, a.drop_last()) {
                Ok(c1) => c1,
                Err(_) => c,
            }),
            a.last(),
            b.last(),
        );
    }
}

/// Transaction lists that carry the same values run to the same caches and
/// the same outcomes.
pub proof fn lemma_run_txs_congruence(
    bm: BalMap,
    a: Seq<SignedTransaction>,
    b: Seq<SignedTransaction>,
)
    requires
        a.len() == b.len(),
        forall|i: int| 0 <= i < a.len() ==> crate::token_types::stx_view_eq(a[i], b[i]),
    ensures
        run_txs(bm, a) == run_txs(bm, b),
    decreases a.len(),
{
    if a.len() > 0 {
        assert(forall|i: int|
            0 <= i < a.drop_last().len() ==> crate::token_types::stx_view_eq(
                a.drop_last()[i],
                b.drop_last()[i],
            ));
        lemma_run_txs_congruence(bm, a.drop_last(), b.drop_last());
        let prior = run_txs(bm, a.drop_last());
        lemma_run_reqs_congruence(
            bm,
            prior.0,
            a.last().raw.requests@,
            b.last().raw.requests@,
        );
    }
}

/// A transaction refused by any request's precondition writes nothing to
/// block state: every account's aggregate of active and locked balance is
/// what it was before the transaction.
pub proof fn lemma_failed_tx_preserves_aggregate(
    bm: BalMap,
    c: BalMap,
    blk: BalMap,
    tx: SignedTransaction,
    a: Seq<u8>,
    t: Seq<u8>,
)
    requires
        step_tx(bm, c, blk, tx).2 is Some,
    ensures
        step_tx(bm, c, blk, tx).1 == blk,
        cache_get(step_tx(bm, c, blk, tx).1, a, t).0 + cache_get(
            step_tx(bm, c, blk, tx).1,
            a,
            t,
        ).1 == cache_get(blk, a, t).0 + cache_get(blk, a, t).1,
{
}

/// A lock or an unlock only moves balance between the active and the locked
/// side: the account's aggregate of the two is unchanged by the request.
pub proof fn lemma_lock_unlock_preserve_aggregate(bm: BalMap, c: BalMap, req: TransactionRequest)
    requires
        req.action == TokenAction::Lock || req.action == TokenAction::Unlock,
        step_request(bm, c, req) is Ok,
    ensures
        cache_get(step_request(bm, c, req)->Ok_0, req.address@, req.token_id@).0 + cache_get(
            step_request(bm, c, req)->Ok_0,
            req.address@,
            req.token_id@,
        ).1 == cache_get(seeded(bm, c, req.address@, req.token_id@), req.address@, req.token_id@).0
            + cache_get(seeded(bm, c, req.address@, req.token_id@), req.address@, req.token_id@).1,
{
}

/// A failing request at position `j` decides the whole transaction.
pub proof fn lemma_err_exit(
    bm: BalMap,
    c0: BalMap,
    c_pre: BalMap,
    reqs: Seq<TransactionRequest>,
    j: int,
    e: TransactionError,
)
    requires
        0 <= j < reqs.len(),
        run_reqs(bm, c0, reqs.take(j)) == Ok::<BalMap, TransactionError>(c_pre),
        step_request(bm, c_pre, reqs[j]) == Err::<BalMap, TransactionError>(e),
    ensures
        run_reqs(bm, c0, reqs) == Err::<BalMap, TransactionError>(e),
{
    assert(reqs.take(j + 1).drop_last() =~= reqs.take(j));
    assert(reqs.take(j + 1).last() == reqs[j]);
    assert(run_reqs(bm, c0, reqs.take(j + 1)) == Err::<BalMap, TransactionError>(e));
    lemma_run_reqs_err(bm, c0, reqs, j + 1);
}

/// The token executor: the two-tier balance cache and the per-transaction
/// log store, alive for one block execution.
pub struct Executor {
    block_exec_cache: OMap<OMap<TokenBalance>>,
    tx_exec_cache: OMap<OMap<TokenBalance>>,
    log_cache: OMap<Vec<Log>>,
}

/// A nested ordered map read as a balance map of number pairs.
pub open spec fn cache_model(c: OMap<OMap<TokenBalance>>) -> BalMap {
    Map::new(
        |a: Seq<u8>| c.m().contains_key(a),
        |a: Seq<u8>| balances_pairs(c.m()[a].m()),
    )
}

/// Well-formed cache: the outer map and every inner map, with address and
/// token keys of their fixed widths.
pub open spec fn cache_wf(c: OMap<OMap<TokenBalance>>) -> bool {
    &&& c.wf()
    &&& forall|i: int|
        0 <= i < c.entries().len() ==> (#[trigger] c.entries()[i]).0.len() == 20
            && c.entries()[i].1.wf() && (forall|j: int|
            0 <= j < c.entries()[i].1.entries().len()
                ==> (#[trigger] c.entries()[i].1.entries()[j]).0.len() == 32)
}

/// Entry values of a well-formed cache are well-formed inner maps.
pub proof fn lemma_cache_entry_wf(c: OMap<OMap<TokenBalance>>, a: Seq<u8>)
    requires
        cache_wf(c),
        c.m().contains_key(a),
    ensures
        c.m()[a].wf(),
        a.len() == 20,
        forall|j: int|
            0 <= j < c.m()[a].entries().len() ==> (#[trigger] c.m()[a].entries()[j]).0.len()
                == 32,
{
    c.lemma_wf_distinct();
    lemma_entries_map_domain(c.entries());
    let i = choose|i: int| 0 <= i < c.entries().len() && c.entries()[i].0 == a;
    lemma_entries_map_at(c.entries(), i);
    assert(c.entries()[i].1.wf());
}

impl Executor {
    pub closed spec fn tx_model(&self) -> BalMap {
        cache_model(self.tx_exec_cache)
    }

    pub closed spec fn blk_model(&self) -> BalMap {
        cache_model(self.block_exec_cache)
    }

    /// The recorded log lines by transaction hash.
    pub closed spec fn logs_model(&self) -> Map<Seq<u8>, Seq<Log>> {
        Map::new(
            |k: Seq<u8>| entries_map(self.log_cache.entries()).contains_key(k),
            |k: Seq<u8>| entries_map(self.log_cache.entries())[k]@,
        )
    }

    pub closed spec fn wf(&self) -> bool {
        &&& cache_wf(self.block_exec_cache)
        &&& cache_wf(self.tx_exec_cache)
        &&& self.log_cache.wf()
    }

    pub fn new() -> (r: Executor)
        ensures
            r.wf(),
            r.tx_model() =~= Map::<Seq<u8>, Map<Seq<u8>, (nat, nat)>>::empty(),
            r.blk_model() =~= Map::<Seq<u8>, Map<Seq<u8>, (nat, nat)>>::empty(),
    {
        let r = Executor {
            block_exec_cache: OMap::new(),
            tx_exec_cache: OMap::new(),
            log_cache: OMap::new(),
        };
        proof {
            lemma_entries_map_domain(r.block_exec_cache.entries());
            lemma_entries_map_domain(r.tx_exec_cache.entries());
        }
        r
    }

    /// The transaction cache's answer for one entry.
    fn tx_get(&self, a: &Addr, t: &Hash256) -> (r: TokenBalance)
        requires
            self.wf(),
        ensures
            (r.locked.val(), r.active.val()) == cache_get(self.tx_model(), a@, t@),
    {
        match self.tx_exec_cache.get(&a.bytes) {
            Some(inner) => {
                proof {
                    lemma_cache_entry_wf(self.tx_exec_cache, a@);
                }
                match inner.get(&t.bytes) {
                    Some(b) => *b,
                    None => TokenBalance::zero(),
                }
            },
            None => TokenBalance::zero(),
        }
    }

    /// Write one entry of the transaction cache.
    fn tx_set(&mut self, a: &Addr, t: &Hash256, b: TokenBalance)
        requires
            old(self).wf(),
            a.wf(),
            t.wf(),
        ensures
            final(self).wf(),
            final(self).tx_model() == cache_set(
                old(self).tx_model(),
                a@,
                t@,
                (b.locked.val(), b.active.val()),
            ),
            final(self).blk_model() == old(self).blk_model(),
            final(self).block_exec_cache == old(self).block_exec_cache,
            final(self).log_cache == old(self).log_cache,
    {
        let mut inner: OMap<TokenBalance> = match self.tx_exec_cache.get(&a.bytes) {
            Some(m) => {
                proof {
                    lemma_cache_entry_wf(self.tx_exec_cache, a@);
                }
                m.duplicate()
            },
            None => OMap::new(),
        };
        let ghost inner_pre = inner.entries();
        proof {
            inner.lemma_wf_distinct();
        }
        inner.set(clone_bytes(&t.bytes), b);
        proof {
            crate::omap::lemma_set_entry_keys(inner_pre, inner.entries(), t@, b);
            assert(forall|j: int|
                0 <= j < inner.entries().len() ==> (#[trigger] inner.entries()[j]).0.len()
                    == 32);
        }
        let ghost outer_pre = self.tx_exec_cache.entries();
        proof {
            self.tx_exec_cache.lemma_wf_distinct();
        }
        self.tx_exec_cache.set(clone_bytes(&a.bytes), inner);
        proof {
            crate::omap::lemma_set_entry_keys(outer_pre, self.tx_exec_cache.entries(), a@, inner);
            assert(cache_wf(self.tx_exec_cache)) by {
                let es = self.tx_exec_cache.entries();
                assert forall|i: int| 0 <= i < es.len() implies (#[trigger] es[i]).0.len() == 20
                    && es[i].1.wf() && (forall|j: int|
                    0 <= j < es[i].1.entries().len() ==> (#[trigger] es[i].1.entries()[j]).0.len()
                        == 32) by {
                    if es[i] == (a@, inner) {
                    } else {
                        let j = choose|j: int| 0 <= j < outer_pre.len() && es[i] == outer_pre[j];
                        assert(outer_pre[j] == old(self).tx_exec_cache.entries()[j]);
                    }
                }
            }
            assert(final(self).tx_model() =~~= cache_set(
                old(self).tx_model(),
                a@,
                t@,
                (b.locked.val(), b.active.val()),
            ));
        }
    }

    /// Make the entry present, seeding it from the committed state when it
    /// still reads as zero.
    fn seed_entry(&mut self, state: &TokenState, a: &Addr, t: &Hash256)
        requires
            old(self).wf(),
            state.wf(),
            a.wf(),
            t.wf(),
        ensures
            final(self).wf(),
            final(self).tx_model() == seeded(state.bal_model(), old(self).tx_model(), a@, t@),
            final(self).blk_model() == old(self).blk_model(),
            final(self).block_exec_cache == old(self).block_exec_cache,
            final(self).log_cache == old(self).log_cache,
    {
        let cur = self.tx_get(a, t);
        if cur.is_uninitialized() {
            let record = get_balance(state, a, t);
            self.tx_set(a, t, record);
        } else {
            self.tx_set(a, t, cur);
        }
    }
}



/// Copies of the recorded log lines, carrying the same texts.
fn clone_logs(v: &Vec<Log>) -> (r: Vec<Log>)
    ensures
        r@.len() == v@.len(),
        entry_texts(r@) == entry_texts(v@),
{
    let mut out: Vec<Log> = Vec::new();
    let mut i: usize = 0;
    while i < v.len()
        invariant
            i <= v@.len(),
            out@.len() == i,
            forall|j: int|
                0 <= j < i ==> (#[trigger] out@[j]).name_spec() == v@[j].name_spec()
                    && out@[j].data_spec() == v@[j].data_spec(),
        decreases v@.len() - i,
    {
        out.push(v[i].clone());
        i = i + 1;
    }
    proof {
        assert(entry_texts(out@) =~= entry_texts(v@));
    }
    out
}

/// Every transfer request names its recipient; admission guarantees this
/// for packaged transactions.
pub open spec fn transfers_carry_to(reqs: Seq<TransactionRequest>) -> bool {
    forall|i: int|
        0 <= i < reqs.len() ==> ((#[trigger] reqs[i]).action == TokenAction::Transfer
            ==> reqs[i].to is Some)
}

/// The last entry of a distinct-keyed prefix decides its key's value.
proof fn es_distinct_take(es: Seq<(Seq<u8>, OMap<TokenBalance>)>, k: int)
    requires
        crate::omap::distinct_keys(es),
        0 < k <= es.len(),
    ensures
        entries_map(es.take(k)).contains_key(es[k - 1].0),
        entries_map(es.take(k))[es[k - 1].0] == es[k - 1].1,
{
    let s = es.take(k);
    assert(crate::omap::distinct_keys(s)) by {
        assert(forall|x: int| 0 <= x < s.len() ==> s[x] == es[x]);
    }
    lemma_entries_map_at(s, k - 1);
}

/// One recorded movement: the account, the direction, the amount.
pub type LogLine = (Seq<u8>, FlowDirection, Uint256);

/// The line one applied request records: minting, locking, unlocking and
/// diverting each record their direction; a transfer records nothing.
pub open spec fn req_line(req: TransactionRequest) -> Seq<LogLine> {
    match req.action {
        TokenAction::Mint => seq![(req.address@, FlowDirection::ActiveAdd, req.amount)],
        TokenAction::Lock => seq![(req.address@, FlowDirection::ActiveToLock, req.amount)],
        TokenAction::Unlock => seq![(req.address@, FlowDirection::LockToActive, req.amount)],
        TokenAction::Divert => seq![(req.address@, FlowDirection::ActiveReduce, req.amount)],
        TokenAction::Transfer => Seq::empty(),
    }
}

/// The lines a request list records: one per request applied before the
/// first failure; the failing request itself records nothing.
pub open spec fn logs_of_reqs(
    bm: BalMap,
    c: BalMap,
    reqs: Seq<TransactionRequest>,
) -> Seq<LogLine>
    decreases reqs.len(),
{
    if reqs.len() == 0 {
        Seq::empty()
    } else {
        let prior = logs_of_reqs(bm, c, reqs.drop_last());
        match run_reqs(bm, c, reqs.drop_last()) {
            Ok(c1) => match step_request(bm, c1, reqs.last()) {
                Ok(_) => prior + req_line(reqs.last()),
                Err(_) => prior,
            },
            Err(_) => prior,
        }
    }
}

/// The two texts of each recorded line.
pub open spec fn line_texts(lines: Seq<LogLine>) -> Seq<(Seq<char>, Seq<char>)> {
    Seq::new(
        lines.len(),
        |i: int|
            (
                crate::token_types::log_name_text(lines[i].0),
                crate::token_types::log_text(lines[i].1, lines[i].2),
            ),
    )
}

/// The two texts of each stored log line.
pub open spec fn entry_texts(ls: Seq<Log>) -> Seq<(Seq<char>, Seq<char>)> {
    Seq::new(ls.len(), |i: int| (ls[i].name_spec(), ls[i].data_spec()))
}

/// The lines a log store holds for a hash; none for a hash it does not
/// know.
pub open spec fn logs_entry(m: Map<Seq<u8>, Seq<Log>>, h: Seq<u8>) -> Seq<Log> {
    if m.contains_key(h) {
        m[h]
    } else {
        Seq::empty()
    }
}

/// The lines a recorded-lines map holds for a hash.
pub open spec fn lines_entry(m: Map<Seq<u8>, Seq<LogLine>>, h: Seq<u8>) -> Seq<LogLine> {
    if m.contains_key(h) {
        m[h]
    } else {
        Seq::empty()
    }
}

/// The lines a whole block records, keyed by transaction hash: each
/// transaction appends its lines under its hash, transactions sharing a
/// hash append in order.
pub open spec fn run_txs_logs(bm: BalMap, txs: Seq<SignedTransaction>) -> Map<
    Seq<u8>,
    Seq<LogLine>,
>
    decreases txs.len(),
{
    if txs.len() == 0 {
        Map::empty()
    } else {
        let prior = run_txs_logs(bm, txs.drop_last());
        let lines = logs_of_reqs(bm, run_txs(bm, txs.drop_last()).0, txs.last().raw.requests@);
        prior.insert(txs.last().tx_hash@, lines_entry(prior, txs.last().tx_hash@) + lines)
    }
}

/// A log store holds exactly the recorded lines: for every hash, the stored
/// texts are the lines' texts.
pub open spec fn logs_match(m: Map<Seq<u8>, Seq<Log>>, s: Map<Seq<u8>, Seq<LogLine>>) -> bool {
    forall|h: Seq<u8>| #![trigger logs_entry(m, h)]
        entry_texts(logs_entry(m, h)) == line_texts(lines_entry(s, h))
}

/// Two log stores agree on every hash but the named one.
pub open spec fn logs_preserved_except(
    before: Map<Seq<u8>, Seq<Log>>,
    after: Map<Seq<u8>, Seq<Log>>,
    h: Seq<u8>,
) -> bool {
    forall|k: Seq<u8>|
        k != h ==> (((#[trigger] after.contains_key(k)) <==> before.contains_key(k)) && (
        before.contains_key(k) ==> after[k] == before[k]))
}

/// A store agrees with itself everywhere.
pub proof fn lemma_logs_preserved_refl(m: Map<Seq<u8>, Seq<Log>>, h: Seq<u8>)
    ensures
        logs_preserved_except(m, m, h),
{
}

/// An error reached by a prefix records nothing more.
pub proof fn lemma_logs_err(bm: BalMap, c: BalMap, reqs: Seq<TransactionRequest>, k: int)
    requires
        0 <= k <= reqs.len(),
        run_reqs(bm, c, reqs.take(k)) is Err,
    ensures
        logs_of_reqs(bm, c, reqs) == logs_of_reqs(bm, c, reqs.take(k)),
    decreases reqs.len() - k,
{
    if k < reqs.len() {
        assert(reqs.take(k + 1).drop_last() =~= reqs.take(k));
        lemma_run_reqs_err(bm, c, reqs, k);
        lemma_logs_err(bm, c, reqs, k + 1);
    } else {
        assert(reqs.take(k) =~= reqs);
    }
}

/// A sequence of cache entries read as a balance map of number pairs.
pub open spec fn cache_model_of(s: Seq<(Seq<u8>, OMap<TokenBalance>)>) -> BalMap {
    Map::new(
        |a: Seq<u8>| entries_map(s).contains_key(a),
        |a: Seq<u8>| balances_pairs(entries_map(s)[a].m()),
    )
}

impl Executor {
    /// Forget the failing transaction's tentative edits.
    fn clear_tx_cache(&mut self)
        requires
            old(self).wf(),
        ensures
            final(self).wf(),
            final(self).tx_model() =~= Map::<Seq<u8>, Map<Seq<u8>, (nat, nat)>>::empty(),
            final(self).block_exec_cache == old(self).block_exec_cache,
            final(self).log_cache == old(self).log_cache,
    {
        self.tx_exec_cache = OMap::new();
        proof {
            lemma_entries_map_domain(self.tx_exec_cache.entries());
        }
    }

    /// Record one log line for the transaction: the account as text and the
    /// movement, appended under the transaction's hash.
    fn push_log(&mut self, tx_hash: &Hash256, addr: &Addr, flow: FlowDirection, amount: &Uint256)
        requires
            old(self).wf(),
        ensures
            final(self).wf(),
            final(self).tx_exec_cache == old(self).tx_exec_cache,
            final(self).block_exec_cache == old(self).block_exec_cache,
            entry_texts(logs_entry(final(self).logs_model(), tx_hash@)) == entry_texts(
                logs_entry(old(self).logs_model(), tx_hash@),
            ) + seq![
                (
                    crate::token_types::log_name_text(addr@),
                    crate::token_types::log_text(flow, *amount),
                ),
            ],
            logs_preserved_except(old(self).logs_model(), final(self).logs_model(), tx_hash@),
    {
        let mut name_bytes: Vec<u8> = vec![0x30u8, 0x78];
        let hx = crate::encode::hex_of(&addr.bytes);
        crate::encode::push_all(&mut name_bytes, &hx);
        proof {
            crate::encode::lemma_hex_bytes_ascii(addr.bytes@);
        }
        let name = crate::encode::ascii_string(&name_bytes);
        proof {
            assert(name_bytes@ =~= seq![0x30u8, 0x78u8] + crate::encode::hex_bytes(addr@));
        }
        let data = gen_log(flow, amount);
        let mut logs: Vec<Log> = match self.log_cache.get(&tx_hash.bytes) {
            Some(v) => clone_logs(v),
            None => Vec::new(),
        };
        let ghost old_entry = logs_entry(old(self).logs_model(), tx_hash@);
        proof {
            assert(entry_texts(logs@) == entry_texts(old_entry));
        }
        logs.push(Log::new(name, data));
        let ghost m_pre = self.logs_model();
        self.log_cache.set(clone_bytes(&tx_hash.bytes), logs);
        proof {
            assert(self.logs_model() =~~= m_pre.insert(tx_hash@, logs@));
            assert(entry_texts(logs@) =~= entry_texts(old_entry) + seq![
                (
                    crate::token_types::log_name_text(addr@),
                    crate::token_types::log_text(flow, *amount),
                ),
            ]);
            assert forall|k: Seq<u8>|
                k != tx_hash@ implies (((#[trigger] self.logs_model().contains_key(k)) <==> old(
                self,
            ).logs_model().contains_key(k)) && (old(self).logs_model().contains_key(k)
                ==> self.logs_model()[k] == old(self).logs_model()[k])) by {
                assert(self.logs_model().contains_key(k) <==> m_pre.contains_key(k));
                if old(self).logs_model().contains_key(k) {
                    assert(self.logs_model()[k] == m_pre[k]);
                }
            }
            assert(logs_preserved_except(
                old(self).logs_model(),
                self.logs_model(),
                tx_hash@,
            ));
        }
    }

    /// Copy every entry the transaction touched into the block cache.
    fn merge_block_cache(&mut self)
        requires
            old(self).wf(),
        ensures
            final(self).wf(),
            final(self).blk_model() =~~= old(self).blk_model().union_prefer_right(
                old(self).tx_model(),
            ),
            final(self).tx_exec_cache == old(self).tx_exec_cache,
            final(self).log_cache == old(self).log_cache,
    {
        let n = self.tx_exec_cache.len();
        let mut i: usize = 0;
        while i < n
            invariant
                self.wf(),
                self.tx_exec_cache == old(self).tx_exec_cache,
                self.log_cache == old(self).log_cache,
                n == self.tx_exec_cache.entries().len(),
                i <= n,
                self.blk_model() =~~= old(self).blk_model().union_prefer_right(
                    cache_model_of(self.tx_exec_cache.entries().take(i as int)),
                ),
            decreases n - i,
        {
            let key = clone_bytes(self.tx_exec_cache.key_at(i));
            proof {
                assert(self.tx_exec_cache.entries()[i as int].1.wf());
            }
            let inner = self.tx_exec_cache.val_at(i).duplicate();
            let ghost pre_cache = self.block_exec_cache;
            let ghost outer_pre = self.block_exec_cache.entries();
            let ghost outer_model_pre = self.blk_model();
            proof {
                self.block_exec_cache.lemma_wf_distinct();
                assert(cache_wf(pre_cache));
            }
            self.block_exec_cache.set(key, inner);
            proof {
                let es = self.tx_exec_cache.entries();
                crate::omap::lemma_set_entry_keys(
                    outer_pre,
                    self.block_exec_cache.entries(),
                    es[i as int].0,
                    inner,
                );
                assert(cache_wf(self.block_exec_cache)) by {
                    let bs = self.block_exec_cache.entries();
                    assert forall|x: int| 0 <= x < bs.len() implies (#[trigger] bs[x]).0.len()
                        == 20 && bs[x].1.wf() && (forall|j: int|
                        0 <= j < bs[x].1.entries().len()
                            ==> (#[trigger] bs[x].1.entries()[j]).0.len() == 32) by {
                        if bs[x] == (es[i as int].0, inner) {
                            assert(inner.entries() =~= es[i as int].1.entries());
                            assert(forall|j: int|
                                0 <= j < inner.entries().len()
                                    ==> (#[trigger] inner.entries()[j]).0.len() == 32);
                        } else {
                            let y = choose|y: int|
                                0 <= y < outer_pre.len() && bs[x] == outer_pre[y];
                            assert(outer_pre[y] == pre_cache.entries()[y]);
                        }
                    }
                }
                let s1 = es.take(i + 1 as int);
                assert(s1.drop_last() =~= es.take(i as int));
                assert(s1.last() == es[i as int]);
                assert(inner.m() == es[i as int].1.m()) by {
                    assert(inner.entries() =~= es[i as int].1.entries());
                }
                assert(entries_map(s1) == entries_map(es.take(i as int)).insert(
                    es[i as int].0,
                    es[i as int].1,
                ));
                assert(cache_model_of(s1) =~~= cache_model_of(es.take(i as int)).insert(
                    es[i as int].0,
                    balances_pairs(es[i as int].1.m()),
                ));
                assert(self.blk_model() =~~= outer_model_pre.insert(
                    es[i as int].0,
                    balances_pairs(inner.m()),
                ));
                assert(self.blk_model() =~~= old(self).blk_model().union_prefer_right(
                    cache_model_of(s1),
                ));
            }
            i = i + 1;
        }
        proof {
            assert(self.tx_exec_cache.entries().take(n as int) =~= self.tx_exec_cache.entries());
            assert(cache_model_of(self.tx_exec_cache.entries()) =~~= old(self).tx_model());
        }
    }

    /// Apply one request: make its entry present, gate it, move the
    /// balance, and record its line. On refusal the whole transaction
    /// cache is dropped and nothing is recorded.
    fn apply_request(
        &mut self,
        state: &TokenState,
        tx_hash: &Hash256,
        req: &TransactionRequest,
    ) -> (r: Option<TransactionError>)
        requires
            old(self).wf(),
            state.wf(),
            req.wf(),
            req.action == TokenAction::Transfer ==> req.to is Some,
        ensures
            final(self).wf(),
            final(self).block_exec_cache == old(self).block_exec_cache,
            (match r {
                None => {
                    &&& step_request(state.bal_model(), old(self).tx_model(), *req) == Ok::<
                        BalMap,
                        TransactionError,
                    >(final(self).tx_model())
                    &&& entry_texts(logs_entry(final(self).logs_model(), tx_hash@))
                        == entry_texts(logs_entry(old(self).logs_model(), tx_hash@))
                        + line_texts(req_line(*req))
                    &&& logs_preserved_except(
                        old(self).logs_model(),
                        final(self).logs_model(),
                        tx_hash@,
                    )
                },
                Some(e) => {
                    &&& step_request(state.bal_model(), old(self).tx_model(), *req) == Err::<
                        BalMap,
                        TransactionError,
                    >(e)
                    &&& final(self).tx_model() =~= Map::<Seq<u8>, Map<Seq<u8>, (nat, nat)>>::empty()
                    &&& final(self).logs_model() == old(self).logs_model()
                },
            }),
    {
        let ghost bm = state.bal_model();
        let ghost c_pre = self.tx_model();
        self.seed_entry(state, &req.address, &req.token_id);
        match req.action {
            TokenAction::Mint => {
                let bal = self.tx_get(&req.address, &req.token_id);
                match bal.active.checked_add(&req.amount) {
                    Some(act) => {
                        self.tx_set(
                            &req.address,
                            &req.token_id,
                            TokenBalance { locked: bal.locked, active: act },
                        );
                        self.push_log(tx_hash, &req.address, FlowDirection::ActiveAdd, &req.amount);
                        proof {
                            assert(line_texts(req_line(*req)) =~= seq![
                                (
                                    crate::token_types::log_name_text(req.address@),
                                    crate::token_types::log_text(
                                        FlowDirection::ActiveAdd,
                                        req.amount,
                                    ),
                                ),
                            ]);
                        }
                        None
                    },
                    None => {
                        self.clear_tx_cache();
                        Some(TransactionError::BalanceOverflow)
                    },
                }
            },
            TokenAction::Lock => {
                let bal = self.tx_get(&req.address, &req.token_id);
                if bal.active.lt(&req.amount) {
                    self.clear_tx_cache();
                    return Some(TransactionError::ActiveAmountLessThanLock);
                }
                match bal.locked.checked_add(&req.amount) {
                    Some(lk) => {
                        let act = match bal.active.checked_sub(&req.amount) {
                            Some(x) => x,
                            None => {
                                proof {
                                    assert(false);
                                }
                                Uint256::zero()
                            },
                        };
                        self.tx_set(
                            &req.address,
                            &req.token_id,
                            TokenBalance { locked: lk, active: act },
                        );
                        self.push_log(
                            tx_hash,
                            &req.address,
                            FlowDirection::ActiveToLock,
                            &req.amount,
                        );
                        proof {
                            assert(line_texts(req_line(*req)) =~= seq![
                                (
                                    crate::token_types::log_name_text(req.address@),
                                    crate::token_types::log_text(
                                        FlowDirection::ActiveToLock,
                                        req.amount,
                                    ),
                                ),
                            ]);
                        }
                        None
                    },
                    None => {
                        self.clear_tx_cache();
                        Some(TransactionError::BalanceOverflow)
                    },
                }
            },
            TokenAction::Unlock => {
                let bal = self.tx_get(&req.address, &req.token_id);
                if bal.locked.lt(&req.amount) {
                    self.clear_tx_cache();
                    return Some(TransactionError::LockedAmountLessThanUnlock);
                }
                match bal.active.checked_add(&req.amount) {
                    Some(act) => {
                        let lk = match bal.locked.checked_sub(&req.amount) {
                            Some(x) => x,
                            None => {
                                proof {
                                    assert(false);
                                }
                                Uint256::zero()
                            },
                        };
                        self.tx_set(
                            &req.address,
                            &req.token_id,
                            TokenBalance { locked: lk, active: act },
                        );
                        self.push_log(
                            tx_hash,
                            &req.address,
                            FlowDirection::LockToActive,
                            &req.amount,
                        );
                        proof {
                            assert(line_texts(req_line(*req)) =~= seq![
                                (
                                    crate::token_types::log_name_text(req.address@),
                                    crate::token_types::log_text(
                                        FlowDirection::LockToActive,
                                        req.amount,
                                    ),
                                ),
                            ]);
                        }
                        None
                    },
                    None => {
                        self.clear_tx_cache();
                        Some(TransactionError::BalanceOverflow)
                    },
                }
            },
            TokenAction::Divert => {
                let bal = self.tx_get(&req.address, &req.token_id);
                if bal.active.lt(&req.amount) {
                    self.clear_tx_cache();
                    return Some(TransactionError::ActiveAmountLessThanDivert);
                }
                let act = match bal.active.checked_sub(&req.amount) {
                    Some(x) => x,
                    None => {
                        proof {
                            assert(false);
                        }
                        Uint256::zero()
                    },
                };
                self.tx_set(
                    &req.address,
                    &req.token_id,
                    TokenBalance { locked: bal.locked, active: act },
                );
                self.push_log(tx_hash, &req.address, FlowDirection::ActiveReduce, &req.amount);
                proof {
                    assert(line_texts(req_line(*req)) =~= seq![
                        (
                            crate::token_types::log_name_text(req.address@),
                            crate::token_types::log_text(FlowDirection::ActiveReduce, req.amount),
                        ),
                    ]);
                }
                None
            },
            TokenAction::Transfer => {
                match &req.to {
                    Some(to_addr) => {
                        self.seed_entry(state, to_addr, &req.token_id);
                        let sb = self.tx_get(&req.address, &req.token_id);
                        if sb.active.lt(&req.amount) {
                            self.clear_tx_cache();
                            return Some(TransactionError::ActiveAmountLessThanTransfer);
                        }
                        let s_act = match sb.active.checked_sub(&req.amount) {
                            Some(x) => x,
                            None => {
                                proof {
                                    assert(false);
                                }
                                Uint256::zero()
                            },
                        };
                        self.tx_set(
                            &req.address,
                            &req.token_id,
                            TokenBalance { locked: sb.locked, active: s_act },
                        );
                        let rb = self.tx_get(to_addr, &req.token_id);
                        match rb.active.checked_add(&req.amount) {
                            Some(r_act) => {
                                self.tx_set(
                                    to_addr,
                                    &req.token_id,
                                    TokenBalance { locked: rb.locked, active: r_act },
                                );
                                proof {
                                    assert(line_texts(req_line(*req)) =~= Seq::<
                                        (Seq<char>, Seq<char>),
                                    >::empty());
                                    assert(entry_texts(
                                        logs_entry(self.logs_model(), tx_hash@),
                                    ) =~= entry_texts(
                                        logs_entry(old(self).logs_model(), tx_hash@),
                                    ) + line_texts(req_line(*req)));
                                }
                                None
                            },
                            None => {
                                self.clear_tx_cache();
                                Some(TransactionError::BalanceOverflow)
                            },
                        }
                    },
                    None => {
                        proof {
                            assert(false);
                        }
                        Some(TransactionError::ActiveAmountLessThanTransfer)
                    },
                }
            },
        }
    }

    /// Run one transaction against the caches: apply its requests in order;
    /// on the first failing request drop all of its edits and answer the
    /// error, otherwise publish its edits to the block cache and answer the
    /// success payload. The transaction's log lines stand under its hash
    /// afterwards, behind whatever the hash already held.
    #[verifier::rlimit(100)]
    fn inner_exec(&mut self, state: &TokenState, stx: &SignedTransaction) -> (r: Result<
        Vec<u8>,
        TransactionError,
    >)
        requires
            old(self).wf(),
            state.wf(),
            stx.wf(),
            transfers_carry_to(stx.raw.requests@),
        ensures
            final(self).wf(),
            (match r {
                Ok(payload) => {
                    &&& run_reqs(state.bal_model(), old(self).tx_model(), stx.raw.requests@)
                        == Ok::<BalMap, TransactionError>(final(self).tx_model())
                    &&& final(self).blk_model() =~~= old(self).blk_model().union_prefer_right(
                        final(self).tx_model(),
                    )
                    &&& payload@ == resp_payload(stx.tx_hash@)
                },
                Err(e) => {
                    &&& run_reqs(state.bal_model(), old(self).tx_model(), stx.raw.requests@)
                        == Err::<BalMap, TransactionError>(e)
                    &&& final(self).tx_model() =~= Map::<Seq<u8>, Map<Seq<u8>, (nat, nat)>>::empty()
                    &&& final(self).blk_model() == old(self).blk_model()
                },
            }),
            entry_texts(logs_entry(final(self).logs_model(), stx.tx_hash@)) == entry_texts(
                logs_entry(old(self).logs_model(), stx.tx_hash@),
            ) + line_texts(
                logs_of_reqs(state.bal_model(), old(self).tx_model(), stx.raw.requests@),
            ),
            logs_preserved_except(old(self).logs_model(), final(self).logs_model(), stx.tx_hash@),
    {
        let ghost bm = state.bal_model();
        let ghost c0 = self.tx_model();
        let ghost reqs = stx.raw.requests@;
        let n = stx.raw.requests.len();
        let mut j: usize = 0;
        proof {
            assert(reqs.take(0) =~= Seq::<TransactionRequest>::empty());
            assert(line_texts(logs_of_reqs(bm, c0, reqs.take(0))) =~= Seq::<
                (Seq<char>, Seq<char>),
            >::empty());
            assert(entry_texts(logs_entry(self.logs_model(), stx.tx_hash@)) =~= entry_texts(
                logs_entry(old(self).logs_model(), stx.tx_hash@),
            ) + line_texts(logs_of_reqs(bm, c0, reqs.take(0))));
        }
        while j < n
            invariant
                self.wf(),
                state.wf(),
                stx.wf(),
                transfers_carry_to(reqs),
                bm == state.bal_model(),
                c0 == old(self).tx_model(),
                reqs == stx.raw.requests@,
                n == reqs.len(),
                j <= n,
                run_reqs(bm, c0, reqs.take(j as int)) == Ok::<BalMap, TransactionError>(
                    self.tx_model(),
                ),
                self.block_exec_cache == old(self).block_exec_cache,
                entry_texts(logs_entry(self.logs_model(), stx.tx_hash@)) == entry_texts(
                    logs_entry(old(self).logs_model(), stx.tx_hash@),
                ) + line_texts(logs_of_reqs(bm, c0, reqs.take(j as int))),
                logs_preserved_except(old(self).logs_model(), self.logs_model(), stx.tx_hash@),
            decreases n - j,
        {
            let ghost c_pre = self.tx_model();
            let ghost logs_pre = self.logs_model();
            let req = &stx.raw.requests[j];
            proof {
                assert(reqs[j as int].wf());
            }
            match self.apply_request(state, &stx.tx_hash, req) {
                None => {
                    proof {
                        assert(reqs.take(j + 1 as int).drop_last() =~= reqs.take(j as int));
                        assert(reqs.take(j + 1 as int).last() == reqs[j as int]);
                        assert(logs_of_reqs(bm, c0, reqs.take(j + 1 as int)) =~= logs_of_reqs(
                            bm,
                            c0,
                            reqs.take(j as int),
                        ) + req_line(reqs[j as int]));
                        assert(line_texts(logs_of_reqs(bm, c0, reqs.take(j + 1 as int)))
                            =~= line_texts(logs_of_reqs(bm, c0, reqs.take(j as int)))
                            + line_texts(req_line(reqs[j as int])));
                        assert(entry_texts(logs_entry(self.logs_model(), stx.tx_hash@))
                            =~= entry_texts(logs_entry(old(self).logs_model(), stx.tx_hash@))
                            + line_texts(logs_of_reqs(bm, c0, reqs.take(j + 1 as int))));
                    }
                },
                Some(e) => {
                    proof {
                        lemma_err_exit(bm, c0, c_pre, reqs, j as int, e);
                        assert(reqs.take(j + 1 as int).drop_last() =~= reqs.take(j as int));
                        assert(logs_of_reqs(bm, c0, reqs.take(j + 1 as int)) =~= logs_of_reqs(
                            bm,
                            c0,
                            reqs.take(j as int),
                        ));
                        lemma_logs_err(bm, c0, reqs, j + 1 as int);
                        assert(self.logs_model() == logs_pre);
                        assert(logs_preserved_except(
                            old(self).logs_model(),
                            self.logs_model(),
                            stx.tx_hash@,
                        ));
                    }
                    return Err(e);
                },
            }
            j = j + 1;
        }
        proof {
            assert(reqs.take(n as int) =~= reqs);
        }
        self.merge_block_cache();
        Ok(gen_resp(&stx.tx_hash))
    }

}

impl Executor {
    /// Write every account the block touched back into the committed state:
    /// merge its balances, rehash its balance trie, and install the record.
    /// `false` reports a trie fault; the state stays well-formed.
    fn commit_cache(&self, state: &mut TokenState) -> (r: bool)
        requires
            self.wf(),
            old(state).wf(),
        ensures
            final(state).wf(),
            r ==> final(state).bal_model() == committed_bal(
                old(state).bal_model(),
                self.blk_model(),
            ),
            r ==> final(state).roots_model() == committed_roots(
                old(state).roots_model(),
                old(state).bal_model(),
                self.blk_model(),
            ),
    {
        let ghost old_bm = state.bal_model();
        let ghost old_roots = state.roots_model();
        let ghost bes = self.block_exec_cache.entries();
        let n = self.block_exec_cache.len();
        let mut k: usize = 0;
        proof {
            assert(bes.take(0) =~= Seq::<(Seq<u8>, OMap<TokenBalance>)>::empty());
            lemma_entries_map_domain(bes.take(0));
            assert(state.bal_model() =~~= committed_bal(old_bm, cache_model_of(bes.take(0))));
            assert(state.roots_model() =~~= committed_roots(
                old_roots,
                old_bm,
                cache_model_of(bes.take(0)),
            ));
        }
        while k < n
            invariant
                self.wf(),
                state.wf(),
                bes == self.block_exec_cache.entries(),
                n == bes.len(),
                k <= n,
                old_bm == old(state).bal_model(),
                old_roots == old(state).roots_model(),
                state.bal_model() == committed_bal(old_bm, cache_model_of(bes.take(k as int))),
                state.roots_model() == committed_roots(
                    old_roots,
                    old_bm,
                    cache_model_of(bes.take(k as int)),
                ),
            decreases n - k,
        {
            let ghost a = bes[k as int].0;
            let ghost pmk = cache_model_of(bes.take(k as int));
            let addr_key = clone_bytes(self.block_exec_cache.key_at(k));
            let bmap = self.block_exec_cache.val_at(k);
            proof {
                assert(bes[k as int].1.wf());
                assert(a.len() == 20);
                // the address was not among the first k entries
                self.block_exec_cache.lemma_wf_distinct();
                lemma_entries_map_domain(bes.take(k as int));
                assert(forall|x: int| 0 <= x < k ==> bes.take(k as int)[x] == bes[x]);
                assert(!pmk.contains_key(a));
            }
            let mut entry: AccountEntry = match state.accounts.get(&addr_key) {
                Some(e) => {
                    proof {
                        lemma_state_entry_wf(*state, a);
                        assert(state.bal_model().contains_key(a));
                        assert(old_bm.contains_key(a));
                        assert(state.bal_model()[a] == old_bm[a]);
                    }
                    let ne = AccountEntry {
                        balance_root: e.balance_root.clone(),
                        balances: e.balances.duplicate(),
                    };
                    proof {
                        assert(ne.balances.entries() =~= e.balances.entries());
                        assert(ne.balances.m() == e.balances.m());
                        assert(balances_pairs(ne.balances.m()) =~~= old_bm[a]);
                    }
                    ne
                },
                None => {
                    proof {
                        assert(!state.bal_model().contains_key(a));
                        assert(!old_bm.contains_key(a));
                    }
                    AccountEntry { balance_root: Hash256::zero(), balances: OMap::new() }
                },
            };
            let ghost start_tb = entry.balances.m();
            proof {
                lemma_entries_map_domain(entry.balances.entries());
                assert(balances_pairs(start_tb) =~~= (if old_bm.contains_key(a) {
                    old_bm[a]
                } else {
                    Map::<Seq<u8>, (nat, nat)>::empty()
                }));
            }
            let m = bmap.len();
            let mut j: usize = 0;
            proof {
                assert(bmap.entries().take(0) =~= Seq::<(Seq<u8>, TokenBalance)>::empty());
                lemma_entries_map_domain(bmap.entries().take(0));
                assert(entry.balances.m() =~~= start_tb.union_prefer_right(
                    entries_map(bmap.entries().take(0)),
                ));
            }
            while j < m
                invariant
                    self.wf(),
                    bes == self.block_exec_cache.entries(),
                    0 <= (k as int) < bes.len(),
                    bmap == &bes[k as int].1,
                    bes[k as int].1.wf(),
                    forall|x: int|
                        0 <= x < bes[k as int].1.entries().len()
                            ==> (#[trigger] bes[k as int].1.entries()[x]).0.len() == 32,
                    m == bmap.entries().len(),
                    j <= m,
                    entry.balances.wf(),
                    entry.balance_root.wf(),
                    forall|x: int|
                        0 <= x < entry.balances.entries().len()
                            ==> (#[trigger] entry.balances.entries()[x]).0.len() == 32,
                    entry.balances.m() == start_tb.union_prefer_right(
                        entries_map(bmap.entries().take(j as int)),
                    ),
                decreases m - j,
            {
                let tkey = clone_bytes(bmap.key_at(j));
                let tval = *bmap.val_at(j);
                let ghost bal_pre = entry.balances.entries();
                proof {
                    entry.balances.lemma_wf_distinct();
                }
                entry.balances.set(tkey, tval);
                proof {
                    crate::omap::lemma_set_entry_keys(
                        bal_pre,
                        entry.balances.entries(),
                        bes[k as int].1.entries()[j as int].0,
                        tval,
                    );
                    assert forall|x: int| 0 <= x < entry.balances.entries().len() implies (
                    #[trigger] entry.balances.entries()[x]).0.len() == 32 by {
                        if entry.balances.entries()[x] == (
                            bes[k as int].1.entries()[j as int].0,
                            tval,
                        ) {
                        } else {
                            let y = choose|y: int|
                                0 <= y < bal_pre.len() && entry.balances.entries()[x]
                                    == bal_pre[y];
                        }
                    }
                    let s1 = bmap.entries().take(j + 1 as int);
                    assert(s1.drop_last() =~= bmap.entries().take(j as int));
                    assert(s1.last() == bmap.entries()[j as int]);
                    assert(entry.balances.m() =~~= start_tb.union_prefer_right(
                        entries_map(s1),
                    ));
                }
                j = j + 1;
            }
            proof {
                assert(bmap.entries().take(m as int) =~= bmap.entries());
            }
            let root = match balance_root_of(&entry.balances) {
                Some(h) => h,
                None => {
                    return false;
                },
            };
            entry.balance_root = root;
            let ghost st_pre = *state;
            put_account(state, addr_key, entry);
            proof {
                // the new prefix model inserts this address's pairs
                let s1 = bes.take(k + 1 as int);
                assert(s1.drop_last() =~= bes.take(k as int));
                assert(s1.last() == bes[k as int]);
                assert(entries_map(s1) == entries_map(bes.take(k as int)).insert(
                    a,
                    bes[k as int].1,
                ));
                let pmk1 = cache_model_of(s1);
                assert(pmk1 =~~= pmk.insert(a, balances_pairs(bes[k as int].1.m())));
                // the merged balances of this address
                assert(balances_pairs(start_tb.union_prefer_right(bes[k as int].1.m()))
                    =~~= merged_at(old_bm, pmk1, a));
                assert(state.bal_model() =~~= committed_bal(old_bm, pmk1));
                assert(balance_trie_entries(balances_pairs(
                    start_tb.union_prefer_right(bes[k as int].1.m()),
                )) == balance_trie_entries(merged_at(old_bm, pmk1, a)));
                assert(state.roots_model() =~~= committed_roots(old_roots, old_bm, pmk1));
            }
            k = k + 1;
        }
        proof {
            assert(bes.take(n as int) =~= bes);
            assert(cache_model_of(bes) =~~= self.blk_model());
            assert(committed_bal(old_bm, cache_model_of(bes)) =~~= committed_bal(
                old_bm,
                self.blk_model(),
            ));
            assert(committed_roots(old_roots, old_bm, cache_model_of(bes)) =~~= committed_roots(
                old_roots,
                old_bm,
                self.blk_model(),
            ));
        }
        true
    }

    /// Execute a block of transactions against the committed state: run each
    /// transaction through the two-tier cache, commit the block cache, and
    /// answer the new state root with one response per transaction. `None`
    /// reports a trie fault, on which block production halts.
    pub fn exec(&mut self, state: &mut TokenState, txs: &Vec<SignedTransaction>) -> (r: Option<
        BlockExecuteResponse,
    >)
        requires
            old(self).wf(),
            old(state).wf(),
            txs_wf(txs@),
        ensures
            final(self).wf(),
            final(state).wf(),
            (match r {
                Some(resp) => {
                    &&& final(state).bal_model() == committed_bal(
                        old(state).bal_model(),
                        run_txs(old(state).bal_model(), txs@).1,
                    )
                    &&& final(state).roots_model() == committed_roots(
                        old(state).roots_model(),
                        old(state).bal_model(),
                        run_txs(old(state).bal_model(), txs@).1,
                    )
                    &&& resp.state_root.wf()
                    &&& resp.state_root@ == mpt_root_of(state_trie_entries(*final(state)))
                    &&& resp.inner@.len() == txs@.len()
                    &&& forall|i: int|
                        0 <= i < txs@.len() ==> resp_matches(
                            resp.inner@[i],
                            txs@[i],
                            run_txs(old(state).bal_model(), txs@).2[i],
                        )
                },
                None => true,
            }),
            logs_match(
                final(self).logs_model(),
                run_txs_logs(old(state).bal_model(), txs@),
            ),
    {
        self.block_exec_cache = OMap::new();
        self.tx_exec_cache = OMap::new();
        self.log_cache = OMap::new();
        proof {
            lemma_entries_map_domain(self.block_exec_cache.entries());
            lemma_entries_map_domain(self.tx_exec_cache.entries());
        }
        let ghost bm = state.bal_model();
        let mut resp_list: Vec<ExecuteResponse> = Vec::new();
        let n = txs.len();
        let mut i: usize = 0;
        proof {
            assert(txs@.take(0) =~= Seq::<SignedTransaction>::empty());
            assert(run_txs(bm, txs@.take(0)).0 =~~= self.tx_model());
            assert(run_txs(bm, txs@.take(0)).1 =~~= self.blk_model());
            assert(logs_match(self.logs_model(), run_txs_logs(bm, txs@.take(0)))) by {
                assert forall|h: Seq<u8>| #![trigger logs_entry(self.logs_model(), h)]
                    entry_texts(logs_entry(self.logs_model(), h)) == line_texts(
                        lines_entry(run_txs_logs(bm, txs@.take(0)), h),
                    ) by {
                    assert(!self.logs_model().contains_key(h));
                    assert(entry_texts(logs_entry(self.logs_model(), h)) =~= Seq::<
                        (Seq<char>, Seq<char>),
                    >::empty());
                    assert(line_texts(lines_entry(run_txs_logs(bm, txs@.take(0)), h)) =~= Seq::<
                        (Seq<char>, Seq<char>),
                    >::empty());
                }
            }
        }
        while i < n
            invariant
                self.wf(),
                state.wf(),
                txs_wf(txs@),
                *state == *old(state),
                bm == state.bal_model(),
                n == txs@.len(),
                i <= n,
                run_txs(bm, txs@.take(i as int)).0 == self.tx_model(),
                run_txs(bm, txs@.take(i as int)).1 == self.blk_model(),
                resp_list@.len() == i,
                forall|x: int|
                    0 <= x < i ==> resp_matches(
                        resp_list@[x],
                        txs@[x],
                        run_txs(bm, txs@.take(i as int)).2[x],
                    ),
                logs_match(self.logs_model(), run_txs_logs(bm, txs@.take(i as int))),
            decreases n - i,
        {
            let ghost c_pre = self.tx_model();
            let ghost blk_pre = self.blk_model();
            let ghost lg_pre = self.logs_model();
            let stx = &txs[i];
            proof {
                assert(txs@[i as int].wf());
            }
            let st_ref: &TokenState = state;
            let outcome = self.inner_exec(st_ref, stx);
            let ghost outcome_snap = outcome;
            let resp = match outcome {
                Ok(payload) => ExecuteResponse {
                    tx_hash: stx.tx_hash.clone(),
                    ret: payload,
                    error: None,
                },
                Err(e) => ExecuteResponse {
                    tx_hash: stx.tx_hash.clone(),
                    ret: Vec::new(),
                    error: Some(e.to_execute_error()),
                },
            };
            proof {
                let s1 = txs@.take(i + 1 as int);
                assert(s1.drop_last() =~= txs@.take(i as int));
                assert(s1.last() == txs@[i as int]);
                lemma_run_txs_len(bm, s1.drop_last());
                lemma_run_txs_len(bm, s1);
                match outcome_snap {
                    Ok(_) => {
                        assert(step_tx(bm, c_pre, blk_pre, txs@[i as int]).0
                            == self.tx_model());
                        assert(step_tx(bm, c_pre, blk_pre, txs@[i as int]).1 =~~= 
                            self.blk_model());
                        assert(run_txs(bm, s1).1 == self.blk_model());
                    },
                    Err(e) => {
                        assert(step_tx(bm, c_pre, blk_pre, txs@[i as int]).0 =~~= 
                            self.tx_model());
                        assert(run_txs(bm, s1).0 == self.tx_model());
                    },
                }
                assert(resp_matches(resp, txs@[i as int], run_txs(bm, s1).2[i as int]));
                assert(forall|x: int|
                    0 <= x < i ==> run_txs(bm, s1).2[x] == run_txs(
                        bm,
                        txs@.take(i as int),
                    ).2[x]);
                let lg_prior = run_txs_logs(bm, txs@.take(i as int));
                let lg_next = run_txs_logs(bm, s1);
                let h0 = txs@[i as int].tx_hash@;
                let lines = logs_of_reqs(bm, c_pre, txs@[i as int].raw.requests@);
                assert(lg_next == lg_prior.insert(h0, lines_entry(lg_prior, h0) + lines));
                assert(logs_match(self.logs_model(), lg_next)) by {
                    assert forall|h: Seq<u8>| #![trigger logs_entry(self.logs_model(), h)]
                        entry_texts(logs_entry(self.logs_model(), h)) == line_texts(
                            lines_entry(lg_next, h),
                        ) by {
                        if h == h0 {
                            assert(entry_texts(logs_entry(self.logs_model(), h))
                                == entry_texts(logs_entry(lg_pre, h)) + line_texts(lines));
                            assert(entry_texts(logs_entry(lg_pre, h)) == line_texts(
                                lines_entry(lg_prior, h),
                            ));
                            assert(line_texts(lines_entry(lg_prior, h) + lines) =~= line_texts(
                                lines_entry(lg_prior, h),
                            ) + line_texts(lines));
                            assert(lines_entry(lg_next, h) == lines_entry(lg_prior, h) + lines);
                        } else {
                            assert(logs_entry(self.logs_model(), h) == logs_entry(lg_pre, h));
                            assert(entry_texts(logs_entry(lg_pre, h)) == line_texts(
                                lines_entry(lg_prior, h),
                            ));
                            assert(lines_entry(lg_next, h) == lines_entry(lg_prior, h));
                        }
                    }
                }
            }
            resp_list.push(resp);
            i = i + 1;
        }
        proof {
            assert(txs@.take(n as int) =~= txs@);
        }
        let committed = self.commit_cache(state);
        if !committed {
            return None;
        }
        let state_root = match state_root_of(state) {
            Some(h) => h,
            None => {
                return None;
            },
        };
        Some(BlockExecuteResponse { state_root, inner: resp_list })
    }

    /// The log lines recorded for a transaction hash, if any.
    pub fn logs_of(&self, tx_hash: &Hash256) -> (r: Option<&Vec<Log>>)
        requires
            self.wf(),
        ensures
            (match r {
                Some(v) => self.logs_model().contains_key(tx_hash@) && v@
                    == self.logs_model()[tx_hash@],
                None => !self.logs_model().contains_key(tx_hash@),
            }),
    {
        self.log_cache.get(&tx_hash.bytes)
    }
}

} // verus!
