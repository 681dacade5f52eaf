use vstd::prelude::*;
use crate::omap::OMap;
use crate::primitives::{Addr, Hash256, clone_bytes};
use crate::token_types::{Account, TokenBalance, enc_balance_v, enc_account_v, encode_account, encode_balance};
use crate::trie::{Mpt, mpt_contents, mpt_insert, mpt_new, mpt_root, mpt_root_of};

verus! {

/// One account's committed data: the root its balances last hashed to, and
/// the balances themselves.
pub struct AccountEntry {
    pub balance_root: Hash256,
    pub balances: OMap<TokenBalance>,
}

impl AccountEntry {
    pub open spec fn wf(&self) -> bool {
        &&& self.balance_root.wf()
        &&& self.balances.wf()
        &&& forall|i: int|
            0 <= i < self.balances.entries().len() ==> self.balances.entries()[i].0.len() == 32
    }
}

/// The committed token-tier state: every account with its balances. The
/// state trie and the per-account balance tries are derived from this map
/// when a block commits.
pub struct TokenState {
    pub accounts: OMap<AccountEntry>,
}

/// A stored balance map as pairs of numbers (locked, active).
pub open spec fn balances_pairs(m: Map<Seq<u8>, TokenBalance>) -> Map<Seq<u8>, (nat, nat)> {
    Map::new(
        |t: Seq<u8>| m.contains_key(t),
        |t: Seq<u8>| (m[t].locked.val(), m[t].active.val()),
    )
}

impl TokenState {
    pub open spec fn wf(&self) -> bool {
        &&& self.accounts.wf()
        &&& forall|i: int|
            0 <= i < self.accounts.entries().len() ==> (#[trigger] self.accounts.entries()[i]).0.len()
                == 20 && self.accounts.entries()[i].1.wf()
    }

    /// Address to balances as pairs of numbers (locked, active): the part
    /// of the state the executor reads.
    pub open spec fn bal_model(&self) -> Map<Seq<u8>, Map<Seq<u8>, (nat, nat)>> {
        Map::new(
            |a: Seq<u8>| self.accounts.m().contains_key(a),
            |a: Seq<u8>| balances_pairs(self.accounts.m()[a].balances.m()),
        )
    }

    /// Address to committed balance-trie root.
    pub open spec fn roots_model(&self) -> Map<Seq<u8>, Seq<u8>> {
        Map::new(
            |a: Seq<u8>| self.accounts.m().contains_key(a),
            |a: Seq<u8>| self.accounts.m()[a].balance_root@,
        )
    }

    pub fn new() -> (r: TokenState)
        ensures
            r.wf(),
            r.bal_model() =~= Map::<Seq<u8>, Map<Seq<u8>, (nat, nat)>>::empty(),
            r.roots_model() =~= Map::<Seq<u8>, Seq<u8>>::empty(),
    {
        let r = TokenState { accounts: OMap::new() };
        proof {
            crate::omap::lemma_entries_map_domain(r.accounts.entries());
        }
        r
    }
}

/// The balance a state holds for an address and token; zero when untouched.
pub open spec fn state_bal(
    bm: Map<Seq<u8>, Map<Seq<u8>, (nat, nat)>>,
    a: Seq<u8>,
    t: Seq<u8>,
) -> (nat, nat) {
    if bm.contains_key(a) && bm[a].contains_key(t) {
        bm[a][t]
    } else {
        (0, 0)
    }
}

/// The entries of a balance trie: token to encoded balance.
pub open spec fn balance_trie_entries(bals: Map<Seq<u8>, (nat, nat)>) -> Map<Seq<u8>, Seq<u8>> {
    Map::new(
        |t: Seq<u8>| bals.contains_key(t),
        |t: Seq<u8>| enc_balance_v(bals[t].0, bals[t].1),
    )
}

/// The entries of the state trie: address to encoded account record.
pub open spec fn state_trie_entries(st: TokenState) -> Map<Seq<u8>, Seq<u8>> {
    Map::new(
        |a: Seq<u8>| st.accounts.m().contains_key(a),
        |a: Seq<u8>| enc_account_v(a, st.accounts.m()[a].balance_root@),
    )
}

/// Every committed entry of a well-formed state is well-formed.
pub proof fn lemma_state_entry_wf(st: TokenState, a: Seq<u8>)
    requires
        st.wf(),
        st.accounts.m().contains_key(a),
    ensures
        st.accounts.m()[a].wf(),
        a.len() == 20,
{
    st.accounts.lemma_wf_distinct();
    crate::omap::lemma_entries_map_domain(st.accounts.entries());
    let i = choose|i: int|
        0 <= i < st.accounts.entries().len() && st.accounts.entries()[i].0 == a;
    crate::omap::lemma_entries_map_at(st.accounts.entries(), i);
    assert(st.accounts.entries()[i].1.wf());
}

/// The account record the state trie answers for an address: the committed
/// root, or the zero root for an account never written.
pub fn get_account(st: &TokenState, addr: &Addr) -> (r: Account)
    requires
        st.wf(),
        addr.wf(),
    ensures
        r.wf(),
        r.address@ == addr@,
        st.roots_model().contains_key(addr@) ==> r.balance_root@ == st.roots_model()[addr@],
        !st.roots_model().contains_key(addr@) ==> r.balance_root.is_zero_spec(),
{
    match st.accounts.get(&addr.bytes) {
        Some(e) => {
            proof {
                lemma_state_entry_wf(*st, addr@);
            }
            Account { address: addr.clone(), balance_root: e.balance_root.clone() }
        },
        None => Account { address: addr.clone(), balance_root: Hash256::zero() },
    }
}

/// The balance the committed state answers for an address and token.
pub fn get_balance(st: &TokenState, addr: &Addr, token_id: &Hash256) -> (r: TokenBalance)
    requires
        st.wf(),
    ensures
        (r.locked.val(), r.active.val()) == state_bal(st.bal_model(), addr@, token_id@),
{
    match st.accounts.get(&addr.bytes) {
        Some(e) => {
            proof {
                lemma_state_entry_wf(*st, addr@);
            }
            match e.balances.get(&token_id.bytes) {
                Some(b) => *b,
                None => TokenBalance::zero(),
            }
        },
        None => TokenBalance::zero(),
    }
}

/// Install one account record, replacing any prior one under the address.
pub fn put_account(st: &mut TokenState, addr_key: Vec<u8>, entry: AccountEntry)
    requires
        old(st).wf(),
        addr_key@.len() == 20,
        entry.wf(),
    ensures
        final(st).wf(),
        final(st).accounts.m() == old(st).accounts.m().insert(addr_key@, entry),
        final(st).bal_model() =~~= old(st).bal_model().insert(
            addr_key@,
            balances_pairs(entry.balances.m()),
        ),
        final(st).roots_model() =~~= old(st).roots_model().insert(addr_key@, entry.balance_root@),
{
    let ghost pre = st.accounts.entries();
    let ghost pre_state = *st;
    proof {
        st.accounts.lemma_wf_distinct();
    }
    let ghost e = entry;
    st.accounts.set(addr_key, entry);
    proof {
        crate::omap::lemma_set_entry_keys(pre, st.accounts.entries(), addr_key@, e);
        assert(st.wf()) by {
            let es = st.accounts.entries();
            assert forall|i: int| 0 <= i < es.len() implies (#[trigger] es[i]).0.len() == 20
                && es[i].1.wf() by {
                if es[i] == (addr_key@, e) {
                } else {
                    let y = choose|y: int| 0 <= y < pre.len() && es[i] == pre[y];
                    assert(pre[y] == pre_state.accounts.entries()[y]);
                }
            }
        }
        assert(final(st).bal_model() =~~= old(st).bal_model().insert(
            addr_key@,
            balances_pairs(e.balances.m()),
        ));
        assert(final(st).roots_model() =~~= old(st).roots_model().insert(
            addr_key@,
            e.balance_root@,
        ));
    }
}

/// The root of the balance trie holding exactly these balances; `None`
/// reports a trie fault.
pub fn balance_root_of(bals: &OMap<TokenBalance>) -> (r: Option<Hash256>)
    requires
        bals.wf(),
    ensures
        match r {
            Some(h) => h.wf() && h@ == mpt_root_of(balance_trie_entries(balances_pairs(bals.m()))),
            None => true,
        },
{
    let mut trie: Mpt = mpt_new();
    let n = bals.len();
    let mut i: usize = 0;
    while i < n
        invariant
            bals.wf(),
            n == bals.entries().len(),
            i <= n,
            mpt_contents(trie) =~= balance_trie_entries(
                balances_pairs(crate::omap::entries_map(bals.entries().take(i as int))),
            ),
        decreases n - i,
    {
        let key = clone_bytes(bals.key_at(i));
        let value = encode_balance(bals.val_at(i));
        let ghost pre = mpt_contents(trie);
        let ok = mpt_insert(&mut trie, &key, &value);
        if !ok {
            return None;
        }
        proof {
            let s = bals.entries().take(i + 1 as int);
            assert(s.drop_last() =~= bals.entries().take(i as int));
            assert(s.last() == bals.entries()[i as int]);
            crate::omap::lemma_entries_map_domain(s);
            assert(mpt_contents(trie) =~= balance_trie_entries(
                balances_pairs(crate::omap::entries_map(s)),
            ));
        }
        i = i + 1;
    }
    proof {
        assert(bals.entries().take(n as int) =~= bals.entries());
    }
    match mpt_root(&mut trie) {
        Some(root) => Some(Hash256::from_bytes(root)),
        None => None,
    }
}

/// The root of the state trie holding every account of the state; `None`
/// reports a trie fault.
pub fn state_root_of(st: &TokenState) -> (r: Option<Hash256>)
    requires
        st.wf(),
    ensures
        match r {
            Some(h) => h.wf() && h@ == mpt_root_of(state_trie_entries(*st)),
            None => true,
        },
{
    let mut trie: Mpt = mpt_new();
    let n = st.accounts.len();
    let mut i: usize = 0;
    while i < n
        invariant
            st.wf(),
            n == st.accounts.entries().len(),
            i <= n,
            mpt_contents(trie) =~= Map::new(
                |a: Seq<u8>| crate::omap::entries_map(
                    st.accounts.entries().take(i as int),
                ).contains_key(a),
                |a: Seq<u8>| enc_account_v(
                    a,
                    crate::omap::entries_map(st.accounts.entries().take(i as int))[a].balance_root@,
                ),
            ),
        decreases n - i,
    {
        let key = clone_bytes(st.accounts.key_at(i));
        let entry = st.accounts.val_at(i);
        let account = Account {
            address: Addr::from_bytes(clone_bytes(&key)),
            balance_root: entry.balance_root.clone(),
        };
        let value = encode_account(&account);
        let ok = mpt_insert(&mut trie, &key, &value);
        if !ok {
            return None;
        }
        proof {
            let s = st.accounts.entries().take(i + 1 as int);
            assert(s.drop_last() =~= st.accounts.entries().take(i as int));
            assert(s.last() == st.accounts.entries()[i as int]);
            crate::omap::lemma_entries_map_domain(s);
            crate::omap::lemma_entries_map_domain(s.drop_last());
            assert(mpt_contents(trie) =~= Map::new(
                |a: Seq<u8>| crate::omap::entries_map(s).contains_key(a),
                |a: Seq<u8>| enc_account_v(a, crate::omap::entries_map(s)[a].balance_root@),
            ));
        }
        i = i + 1;
    }
    proof {
        assert(st.accounts.entries().take(n as int) =~= st.accounts.entries());
        assert(Map::new(
            |a: Seq<u8>| crate::omap::entries_map(st.accounts.entries()).contains_key(a),
            |a: Seq<u8>| enc_account_v(
                a,
                crate::omap::entries_map(st.accounts.entries())[a].balance_root@,
            ),
        ) =~= state_trie_entries(*st));
    }
    match mpt_root(&mut trie) {
        Some(root) => Some(Hash256::from_bytes(root)),
        None => None,
    }
}

} // verus!
