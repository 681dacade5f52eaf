use vstd::prelude::*;
use crate::cbmt::{cbmt_root_from_hashes, cbmt_root_spec};
use crate::channel_types::{
    Channel, ChannelState, ChannelV, CloseChannel, CreateChannel, ExecutionExitCode,
    RawTransaction, TransactionReceipt, UpdateChannel, close_sig_msg, enc_channel_v,
    enc_receipt_v, encode_channel, encode_receipt, sig_msg_close, sig_msg_update,
    update_sig_msg, zero_channel,
};
use crate::hashes::{blake2b_hash, blake2b_of};
use crate::omap::{OMap, entries_map, lemma_entries_map_at, lemma_entries_map_domain};
use crate::primitives::{Addr, Hash256, Uint256, clone_bytes};
use crate::smt::{Smt, smt_leaves, smt_new, smt_root, smt_root_of, smt_update, smt_upsert, smt_clone, zero32};
use crate::wallet::{Wallet, recovered_addr};

verus! {

/// The channel map: sparse-merkle-tree key bytes to channel images.
pub type ChanMap = Map<Seq<u8>, ChannelV>;

/// The leaves the sparse merkle tree holds for a channel map: each channel's
/// digest under its key, except where that digest is the zero leaf.
pub open spec fn leaves_of(m: ChanMap) -> Map<Seq<u8>, Seq<u8>> {
    Map::new(
        |k: Seq<u8>| m.contains_key(k) && blake2b_of(enc_channel_v(m[k])) != zero32(),
        |k: Seq<u8>| blake2b_of(enc_channel_v(m[k])),
    )
}

/// What a map answers for a key: the stored channel, or the zero channel.
pub open spec fn chan_at(m: ChanMap, k: Seq<u8>) -> ChannelV {
    if m.contains_key(k) {
        m[k]
    } else {
        zero_channel()
    }
}

/// Whether one signature recovers to one of the two authorized addresses.
pub open spec fn sig_ok_for(msg: Seq<u8>, sig: Seq<u8>, p1: Seq<u8>, p2: Seq<u8>) -> bool {
    match recovered_addr(msg, sig) {
        Some(a) => a == p1 || a == p2,
        None => false,
    }
}

/// Both signatures recover to authorized addresses; the same signer may
/// satisfy both slots.
pub open spec fn sig2_ok(msg: Seq<u8>, p1: Seq<u8>, p2: Seq<u8>, s1: Seq<u8>, s2: Seq<u8>) -> bool {
    sig_ok_for(msg, s1, p1, p2) && sig_ok_for(msg, s2, p1, p2)
}

/// The limbs of a sum of two 128-bit numbers.
pub open spec fn u256_of_sum(x: u128, y: u128) -> Uint256 {
    if x + y <= u128::MAX {
        Uint256 { lo: (x + y) as u128, hi: 0 }
    } else {
        Uint256 { lo: (x + y - 0x100000000000000000000000000000000) as u128, hi: 1 }
    }
}

/// The channel a create opens: state `Open`, version zero, the total the sum
/// of the two settled shares.
pub open spec fn create_channel_v(a: CreateChannel) -> ChannelV {
    ChannelV {
        id: a.id,
        token_id: a.token.id,
        symbol: a.token.symbol@,
        decimal: a.token.decimal,
        p1: a.participant2.0@,
        p2: a.participant2.1@,
        state: ChannelState::Open,
        version: 0,
        total_balance: u256_of_sum(a.balance2.0.settled, a.balance2.1.settled),
        b1: a.balance2.0.settled,
        b2: a.balance2.1.settled,
    }
}

/// What a create does: refused when the slot already holds a channel,
/// otherwise the new channel is written.
pub open spec fn step_create(m: ChanMap, staged: ChanMap, a: CreateChannel) -> (
    ChanMap,
    ChanMap,
    ExecutionExitCode,
) {
    let k = a.id.le_bytes_spec();
    if chan_at(m, k).state != ChannelState::NonExists {
        (m, staged, ExecutionExitCode::ErrorChannelExists)
    } else {
        let cv = create_channel_v(a);
        (m.insert(k, cv), staged.insert(k, cv), ExecutionExitCode::Success)
    }
}

/// What an update does: refused when the channel is absent, when the version
/// does not advance, or when a signature fails; otherwise version and split
/// move to the co-signed values and the rest stays.
pub open spec fn step_update(m: ChanMap, staged: ChanMap, a: UpdateChannel) -> (
    ChanMap,
    ChanMap,
    ExecutionExitCode,
) {
    let k = a.channel_id.le_bytes_spec();
    let cur = chan_at(m, k);
    if cur.state == ChannelState::NonExists {
        (m, staged, ExecutionExitCode::ErrorChannelNotFound)
    } else if a.version <= cur.version {
        (m, staged, ExecutionExitCode::ErrorRollbackChannelVersion)
    } else if !sig2_ok(update_sig_msg(a), cur.p1, cur.p2, a.signature2.0@, a.signature2.1@) {
        (m, staged, ExecutionExitCode::ErrorUpdateChannelSignature)
    } else {
        let cv = ChannelV {
            version: a.version,
            b1: a.balance2.0.settled,
            b2: a.balance2.1.settled,
            ..cur
        };
        (
            m.insert(cur.id.le_bytes_spec(), cv),
            staged.insert(cur.id.le_bytes_spec(), cv),
            ExecutionExitCode::Success,
        )
    }
}

/// What a close does: the same gates as an update; on success the version
/// advances and the channel closes, with the split left at the last accepted
/// state.
pub open spec fn step_close(m: ChanMap, staged: ChanMap, a: CloseChannel) -> (
    ChanMap,
    ChanMap,
    ExecutionExitCode,
) {
    let k = a.channel_id.le_bytes_spec();
    let cur = chan_at(m, k);
    if cur.state == ChannelState::NonExists {
        (m, staged, ExecutionExitCode::ErrorChannelNotFound)
    } else if a.version <= cur.version {
        (m, staged, ExecutionExitCode::ErrorRollbackChannelVersion)
    } else if !sig2_ok(close_sig_msg(a), cur.p1, cur.p2, a.signature2.0@, a.signature2.1@) {
        (m, staged, ExecutionExitCode::ErrorUpdateChannelSignature)
    } else {
        let cv = ChannelV { version: a.version, state: ChannelState::Closed, ..cur };
        (
            m.insert(cur.id.le_bytes_spec(), cv),
            staged.insert(cur.id.le_bytes_spec(), cv),
            ExecutionExitCode::Success,
        )
    }
}

/// One transaction against the channel map.
pub open spec fn step_ctx(m: ChanMap, staged: ChanMap, tx: RawTransaction) -> (
    ChanMap,
    ChanMap,
    ExecutionExitCode,
) {
    match tx {
        RawTransaction::CreateChannel(a) => step_create(m, staged, a),
        RawTransaction::UpdateChannel(a) => step_update(m, staged, a),
        RawTransaction::CloseChannel(a) => step_close(m, staged, a),
    }
}

/// A block of channel transactions in order: the final map, the staged
/// writes, and one receipt pair (exit code, state root) per transaction. A
/// successful transaction's root is the root over the map it left; a refused
/// one reports the zero root and writes nothing.
pub open spec fn run_ctxs(m: ChanMap, staged: ChanMap, txs: Seq<RawTransaction>) -> (
    ChanMap,
    ChanMap,
    Seq<(ExecutionExitCode, Seq<u8>)>,
)
    decreases txs.len(),
{
    if txs.len() == 0 {
        (m, staged, Seq::<(ExecutionExitCode, Seq<u8>)>::empty())
    } else {
        let prior = run_ctxs(m, staged, txs.drop_last());
        let stepped = step_ctx(prior.0, prior.1, txs.last());
        let root = if stepped.2 == ExecutionExitCode::Success {
            smt_root_of(leaves_of(stepped.0))
        } else {
            zero32()
        };
        (stepped.0, stepped.1, prior.2.push((stepped.2, root)))
    }
}

/// The channel state as the tree and the channels it hashes: the sparse
/// merkle tree holds exactly the digests of the channel map.
pub struct ChannelSmt {
    smt: Smt,
    channels: OMap<Channel>,
}

impl ChannelSmt {
    /// The channels by key, as images.
    pub closed spec fn chans(&self) -> ChanMap {
        Map::new(
            |k: Seq<u8>| entries_map(self.channels.entries()).contains_key(k),
            |k: Seq<u8>| entries_map(self.channels.entries())[k].v(),
        )
    }

    pub closed spec fn wf(&self) -> bool {
        &&& self.channels.wf()
        &&& forall|i: int|
            0 <= i < self.channels.entries().len() ==> (#[trigger] self.channels.entries()[
                i
            ]).0.len() == 32
        &&& smt_leaves(self.smt) == leaves_of(self.chans())
    }

    /// An empty tree holding no channels.
    pub fn new() -> (r: ChannelSmt)
        ensures
            r.wf(),
            r.chans() =~= Map::<Seq<u8>, ChannelV>::empty(),
    {
        let r = ChannelSmt { smt: smt_new(), channels: OMap::new() };
        proof {
            lemma_entries_map_domain(r.channels.entries());
            assert(r.chans() =~= Map::<Seq<u8>, ChannelV>::empty());
            assert(leaves_of(r.chans()) =~= Map::<Seq<u8>, Seq<u8>>::empty());
        }
        r
    }

    /// The channel stored under an id, or the zero channel.
    pub fn get(&self, id: &Uint256) -> (r: Channel)
        requires
            self.wf(),
        ensures
            r.v() == chan_at(self.chans(), id.le_bytes_spec()),
    {
        let key = id.to_le_bytes();
        match self.channels.get(&key) {
            Some(c) => {
                proof {
                    self.channels.lemma_wf_distinct();
                    lemma_entries_map_domain(self.channels.entries());
                    let i = choose|i: int|
                        0 <= i < self.channels.entries().len() && self.channels.entries()[i].0
                            == key@;
                    lemma_entries_map_at(self.channels.entries(), i);
                }
                c.clone()
            },
            None => Channel::zero(),
        }
    }

    /// The current root over the stored channels.
    pub fn root(&self) -> (r: Vec<u8>)
        requires
            self.wf(),
        ensures
            r@ == smt_root_of(leaves_of(self.chans())),
            r@.len() == 32,
    {
        smt_root(&self.smt)
    }

    /// Write one channel under its id and answer the new root; `None`
    /// reports a tree fault, after which nothing more is claimed.
    pub fn update(&mut self, channel: Channel) -> (r: Option<Vec<u8>>)
        requires
            old(self).wf(),
        ensures
            (match r {
                Some(root) => final(self).wf() && final(self).chans() == old(
                    self,
                ).chans().insert(channel.id.le_bytes_spec(), channel.v()) && root@
                    == smt_root_of(leaves_of(final(self).chans())) && root@.len() == 32,
                None => true,
            }),
    {
        let key = channel.id.to_le_bytes();
        let enc = encode_channel(&channel);
        let leaf = crate::hashes::blake2b_bytes(&enc);
        let root = match smt_update(&mut self.smt, &key, &leaf) {
            Some(x) => x,
            None => {
                return None;
            },
        };
        let ghost pre = self.channels.entries();
        let ghost pre_chans = old(self).chans();
        proof {
            self.channels.lemma_wf_distinct();
        }
        let ghost cv = channel;
        self.channels.set(key, channel);
        proof {
            crate::omap::lemma_set_entry_keys(pre, self.channels.entries(), cv.id.le_bytes_spec(), cv);
            assert(self.channels.wf());
            assert forall|i: int| 0 <= i < self.channels.entries().len() implies (
            #[trigger] self.channels.entries()[i]).0.len() == 32 by {
                if self.channels.entries()[i] == (cv.id.le_bytes_spec(), cv) {
                } else {
                    let y = choose|y: int|
                        0 <= y < pre.len() && self.channels.entries()[i] == pre[y];
                    assert(pre[y] == old(self).channels.entries()[y]);
                }
            }
            assert(self.chans() =~~= pre_chans.insert(cv.id.le_bytes_spec(), cv.v()));
            assert(smt_leaves(self.smt) =~= leaves_of(self.chans())) by {
                assert(smt_leaves(self.smt) == smt_upsert(
                    leaves_of(pre_chans),
                    cv.id.le_bytes_spec(),
                    blake2b_of(enc_channel_v(cv.v())),
                ));
            }
        }
        Some(root)
    }

    /// A working copy with the same channels and the same tree.
    pub fn snapshot(&self) -> (r: ChannelSmt)
        requires
            self.wf(),
        ensures
            r.wf(),
            r.chans() == self.chans(),
    {
        let smt = smt_clone(&self.smt);
        let mut channels: OMap<Channel> = OMap::new();
        let n = self.channels.len();
        let mut i: usize = 0;
        proof {
            lemma_entries_map_domain(channels.entries());
        }
        while i < n
            invariant
                self.wf(),
                n == self.channels.entries().len(),
                i <= n,
                channels.wf(),
                channels.entries().len() == i,
                forall|x: int|
                    0 <= x < i ==> (#[trigger] channels.entries()[x]).0
                        == self.channels.entries()[x].0 && channels.entries()[x].1.v()
                        == self.channels.entries()[x].1.v() && channels.entries()[x].0.len()
                        == 32,
            decreases n - i,
        {
            let key = clone_bytes(self.channels.key_at(i));
            let value = self.channels.val_at(i).clone();
            let ghost pre = channels.entries();
            proof {
                channels.lemma_wf_distinct();
                lemma_entries_map_domain(pre);
                assert(!entries_map(pre).contains_key(self.channels.entries()[i as int].0)) by {
                    self.channels.lemma_wf_distinct();
                    assert forall|j: int| 0 <= j < pre.len() implies (#[trigger] pre[j]).0
                        != self.channels.entries()[i as int].0 by {
                        assert(pre[j].0 == self.channels.entries()[j].0);
                    }
                }
            }
            channels.set(key, value);
            proof {
                assert(channels.entries() =~= pre.push(
                    (self.channels.entries()[i as int].0, value),
                ));
            }
            i = i + 1;
        }
        let r = ChannelSmt { smt, channels };
        proof {
            assert(r.chans() =~~= self.chans()) by {
                r.channels.lemma_wf_distinct();
                self.channels.lemma_wf_distinct();
                lemma_entries_map_domain(r.channels.entries());
                lemma_entries_map_domain(self.channels.entries());
                assert forall|k: Seq<u8>| #[trigger] r.chans().contains_key(k) implies
                    self.chans().contains_key(k) && r.chans()[k] == self.chans()[k] by {
                    let x = choose|x: int|
                        0 <= x < r.channels.entries().len() && r.channels.entries()[x].0 == k;
                    lemma_entries_map_at(r.channels.entries(), x);
                    assert(self.channels.entries()[x].0 == k);
                    lemma_entries_map_at(self.channels.entries(), x);
                }
                assert forall|k: Seq<u8>| #[trigger] self.chans().contains_key(k) implies
                    r.chans().contains_key(k) by {
                    let x = choose|x: int|
                        0 <= x < self.channels.entries().len() && self.channels.entries()[x].0
                            == k;
                    assert(r.channels.entries()[x].0 == k);
                }
            }
            assert(smt_leaves(r.smt) == leaves_of(r.chans()));
        }
        r
    }
}

/// Whether both signatures over a message recover to one of the two
/// authorized addresses.
pub fn verify_signature2(
    msg: &Hash256,
    participant2: (&Addr, &Addr),
    sig2: (&Vec<u8>, &Vec<u8>),
) -> (r: bool)
    ensures
        r == sig2_ok(msg@, participant2.0@, participant2.1@, sig2.0@, sig2.1@),
{
    let ok1 = match Wallet::recover_address(msg, sig2.0) {
        Some(a) => {
            crate::primitives::bytes_eq(&a.bytes, &participant2.0.bytes)
                || crate::primitives::bytes_eq(&a.bytes, &participant2.1.bytes)
        },
        None => false,
    };
    if !ok1 {
        return false;
    }
    match Wallet::recover_address(msg, sig2.1) {
        Some(a) => {
            crate::primitives::bytes_eq(&a.bytes, &participant2.0.bytes)
                || crate::primitives::bytes_eq(&a.bytes, &participant2.1.bytes)
        },
        None => false,
    }
}


/// The staged writes as a channel map.
pub open spec fn staged_m(m: OMap<Channel>) -> ChanMap {
    Map::new(
        |k: Seq<u8>| entries_map(m.entries()).contains_key(k),
        |k: Seq<u8>| entries_map(m.entries())[k].v(),
    )
}

/// Well-formed staged writes: each channel keyed by its own id's bytes.
pub open spec fn staged_wf(m: OMap<Channel>) -> bool {
    &&& m.wf()
    &&& forall|i: int|
        0 <= i < m.entries().len() ==> (#[trigger] m.entries()[i]).0
            == m.entries()[i].1.id.le_bytes_spec()
}

/// Record one staged write under the channel's id.
fn staged_put(staged: &mut OMap<Channel>, channel: Channel)
    requires
        staged_wf(*old(staged)),
    ensures
        staged_wf(*final(staged)),
        staged_m(*final(staged)) == staged_m(*old(staged)).insert(
            channel.id.le_bytes_spec(),
            channel.v(),
        ),
{
    let key = channel.id.to_le_bytes();
    let ghost pre = staged.entries();
    proof {
        staged.lemma_wf_distinct();
    }
    let ghost cv = channel;
    staged.set(key, channel);
    proof {
        crate::omap::lemma_set_entry_keys(pre, staged.entries(), cv.id.le_bytes_spec(), cv);
        assert forall|i: int| 0 <= i < staged.entries().len() implies (
        #[trigger] staged.entries()[i]).0 == staged.entries()[i].1.id.le_bytes_spec() by {
            if staged.entries()[i] == (cv.id.le_bytes_spec(), cv) {
            } else {
                let y = choose|y: int| 0 <= y < pre.len() && staged.entries()[i] == pre[y];
                assert(pre[y] == old(staged).entries()[y]);
            }
        }
        assert(staged_m(*staged) =~~= staged_m(*old(staged)).insert(
            cv.id.le_bytes_spec(),
            cv.v(),
        ));
    }
}

/// Open a channel, unless its slot is taken.
fn create_channel(work: &mut ChannelSmt, staged: &mut OMap<Channel>, args: &CreateChannel) -> (r:
    Option<TransactionReceipt>)
    requires
        old(work).wf(),
        staged_wf(*old(staged)),
    ensures
        (match r {
            Some(receipt) => {
                &&& final(work).wf()
                &&& staged_wf(*final(staged))
                &&& final(work).chans() == step_create(
                    old(work).chans(),
                    staged_m(*old(staged)),
                    *args,
                ).0
                &&& staged_m(*final(staged)) == step_create(
                    old(work).chans(),
                    staged_m(*old(staged)),
                    *args,
                ).1
                &&& receipt.exit_code == step_create(
                    old(work).chans(),
                    staged_m(*old(staged)),
                    *args,
                ).2
                &&& receipt.state_root.wf()
                &&& (receipt.exit_code == ExecutionExitCode::Success
                    ==> receipt.state_root@ == smt_root_of(leaves_of(final(work).chans())))
                &&& (receipt.exit_code != ExecutionExitCode::Success ==> receipt.state_root@
                    == zero32())
            },
            None => true,
        }),
{
    let cur = work.get(&args.id);
    if cur.present() {
        return Some(TransactionReceipt::err_res(ExecutionExitCode::ErrorChannelExists));
    }
    let total = match Uint256::from_u128(args.balance2.0.settled).checked_add(
        &Uint256::from_u128(args.balance2.1.settled),
    ) {
        Some(t) => t,
        None => {
            proof {
                assert(false);
            }
            Uint256::zero()
        },
    };
    proof {
        Uint256::lemma_unique(
            total,
            u256_of_sum(args.balance2.0.settled, args.balance2.1.settled),
        );
    }
    let channel = Channel {
        id: args.id,
        token: crate::channel_types::Token {
            id: args.token.id,
            symbol: clone_bytes(&args.token.symbol),
            decimal: args.token.decimal,
        },
        participant2: (args.participant2.0.clone(), args.participant2.1.clone()),
        state: ChannelState::Open,
        version: 0,
        total_balance: total,
        balance2: args.balance2,
    };
    proof {
        assert(channel.v() == create_channel_v(*args));
    }
    let copy = channel.clone();
    let root = match work.update(channel) {
        Some(x) => x,
        None => {
            return None;
        },
    };
    staged_put(staged, copy);
    Some(TransactionReceipt::success(Hash256::from_bytes(root)))
}

/// Advance a channel's co-signed split, behind the existence, version and
/// signature gates.
fn update_channel(work: &mut ChannelSmt, staged: &mut OMap<Channel>, args: &UpdateChannel) -> (r:
    Option<TransactionReceipt>)
    requires
        old(work).wf(),
        staged_wf(*old(staged)),
    ensures
        (match r {
            Some(receipt) => {
                &&& final(work).wf()
                &&& staged_wf(*final(staged))
                &&& final(work).chans() == step_update(
                    old(work).chans(),
                    staged_m(*old(staged)),
                    *args,
                ).0
                &&& staged_m(*final(staged)) == step_update(
                    old(work).chans(),
                    staged_m(*old(staged)),
                    *args,
                ).1
                &&& receipt.exit_code == step_update(
                    old(work).chans(),
                    staged_m(*old(staged)),
                    *args,
                ).2
                &&& receipt.state_root.wf()
                &&& (receipt.exit_code == ExecutionExitCode::Success
                    ==> receipt.state_root@ == smt_root_of(leaves_of(final(work).chans())))
                &&& (receipt.exit_code != ExecutionExitCode::Success ==> receipt.state_root@
                    == zero32())
            },
            None => true,
        }),
{
    let channel = work.get(&args.channel_id);
    if !channel.present() {
        return Some(TransactionReceipt::err_res(ExecutionExitCode::ErrorChannelNotFound));
    }
    if args.version <= channel.version {
        return Some(
            TransactionReceipt::err_res(ExecutionExitCode::ErrorRollbackChannelVersion),
        );
    }
    let msg = sig_msg_update(args);
    if !verify_signature2(
        &msg,
        (&channel.participant2.0, &channel.participant2.1),
        (&args.signature2.0, &args.signature2.1),
    ) {
        return Some(
            TransactionReceipt::err_res(ExecutionExitCode::ErrorUpdateChannelSignature),
        );
    }
    let updated = Channel {
        id: channel.id,
        token: channel.token,
        participant2: channel.participant2,
        state: channel.state,
        version: args.version,
        total_balance: channel.total_balance,
        balance2: args.balance2,
    };
    let copy = updated.clone();
    let root = match work.update(updated) {
        Some(x) => x,
        None => {
            return None;
        },
    };
    staged_put(staged, copy);
    Some(TransactionReceipt::success(Hash256::from_bytes(root)))
}

/// Settle a channel, behind the same gates as an update: the version
/// advances and the state closes; the split stays at the last accepted
/// state.
fn close_channel(work: &mut ChannelSmt, staged: &mut OMap<Channel>, args: &CloseChannel) -> (r:
    Option<TransactionReceipt>)
    requires
        old(work).wf(),
        staged_wf(*old(staged)),
    ensures
        (match r {
            Some(receipt) => {
                &&& final(work).wf()
                &&& staged_wf(*final(staged))
                &&& final(work).chans() == step_close(
                    old(work).chans(),
                    staged_m(*old(staged)),
                    *args,
                ).0
                &&& staged_m(*final(staged)) == step_close(
                    old(work).chans(),
                    staged_m(*old(staged)),
                    *args,
                ).1
                &&& receipt.exit_code == step_close(
                    old(work).chans(),
                    staged_m(*old(staged)),
                    *args,
                ).2
                &&& receipt.state_root.wf()
                &&& (receipt.exit_code == ExecutionExitCode::Success
                    ==> receipt.state_root@ == smt_root_of(leaves_of(final(work).chans())))
                &&& (receipt.exit_code != ExecutionExitCode::Success ==> receipt.state_root@
                    == zero32())
            },
            None => true,
        }),
{
    let channel = work.get(&args.channel_id);
    if !channel.present() {
        return Some(TransactionReceipt::err_res(ExecutionExitCode::ErrorChannelNotFound));
    }
    if args.version <= channel.version {
        return Some(
            TransactionReceipt::err_res(ExecutionExitCode::ErrorRollbackChannelVersion),
        );
    }
    let msg = sig_msg_close(args);
    if !verify_signature2(
        &msg,
        (&channel.participant2.0, &channel.participant2.1),
        (&args.signature2.0, &args.signature2.1),
    ) {
        return Some(
            TransactionReceipt::err_res(ExecutionExitCode::ErrorUpdateChannelSignature),
        );
    }
    let closed = Channel {
        id: channel.id,
        token: channel.token,
        participant2: channel.participant2,
        state: ChannelState::Closed,
        version: args.version,
        total_balance: channel.total_balance,
        balance2: channel.balance2,
    };
    let copy = closed.clone();
    let root = match work.update(closed) {
        Some(x) => x,
        None => {
            return None;
        },
    };
    staged_put(staged, copy);
    Some(TransactionReceipt::success(Hash256::from_bytes(root)))
}

/// A block run answers one receipt per transaction.
pub proof fn lemma_run_ctxs_len(m: ChanMap, staged: ChanMap, txs: Seq<RawTransaction>)
    ensures
        run_ctxs(m, staged, txs).2.len() == txs.len(),
    decreases txs.len(),
{
    if txs.len() > 0 {
        lemma_run_ctxs_len(m, staged, txs.drop_last());
    }
}

/// What one block execution answers: the final state root, the receipt tree
/// root, the receipts in order, and the channels the block wrote.
pub struct ExecutionReceipt {
    pub state_root: Hash256,
    pub receipt_root: Hash256,
    pub transaction_receipts: Vec<TransactionReceipt>,
    pub updated_channels: OMap<Channel>,
}

/// The channel executor: a stateless engine run against the committed
/// channels for one block.
pub struct ChannelExecutor {}

impl ChannelExecutor {
    pub fn new() -> (r: ChannelExecutor) {
        ChannelExecutor {  }
    }

    /// Run a block of channel transactions against the committed channels,
    /// on a working copy: each transaction is gated and written as its kind
    /// says, a refused one writes nothing. Answers the final root, a merkle
    /// root over the receipts, and exactly the channels the block wrote.
    /// `None` reports a tree fault, which halts block production.
    pub fn exec(&self, committed: &ChannelSmt, transactions: &Vec<RawTransaction>) -> (r: Option<
        ExecutionReceipt,
    >)
        requires
            committed.wf(),
            transactions@.len() < 0x10000000,
        ensures
            (match r {
                Some(er) => {
                    &&& staged_wf(er.updated_channels)
                    &&& staged_m(er.updated_channels) == run_ctxs(
                        committed.chans(),
                        Map::empty(),
                        transactions@,
                    ).1
                    &&& er.state_root.wf()
                    &&& er.state_root@ == smt_root_of(
                        leaves_of(run_ctxs(committed.chans(), Map::empty(), transactions@).0),
                    )
                    &&& er.transaction_receipts@.len() == transactions@.len()
                    &&& (forall|i: int|
                        0 <= i < transactions@.len() ==> (
                        #[trigger] er.transaction_receipts@[i]).exit_code == run_ctxs(
                            committed.chans(),
                            Map::empty(),
                            transactions@,
                        ).2[i].0 && er.transaction_receipts@[i].state_root@ == run_ctxs(
                            committed.chans(),
                            Map::empty(),
                            transactions@,
                        ).2[i].1)
                    &&& er.receipt_root.wf()
                    &&& er.receipt_root@ == cbmt_root_spec(
                        false,
                        receipt_leaves(
                            run_ctxs(committed.chans(), Map::empty(), transactions@).2,
                        ),
                    )
                },
                None => true,
            }),
    {
        let ghost m0 = committed.chans();
        let mut work = committed.snapshot();
        let mut staged: OMap<Channel> = OMap::new();
        proof {
            lemma_entries_map_domain(staged.entries());
            assert(staged_m(staged) =~= Map::<Seq<u8>, ChannelV>::empty());
        }
        let mut receipts: Vec<TransactionReceipt> = Vec::new();
        let n = transactions.len();
        let mut i: usize = 0;
        proof {
            assert(transactions@.take(0) =~= Seq::<RawTransaction>::empty());
        }
        while i < n
            invariant
                committed.wf(),
                m0 == committed.chans(),
                n == transactions@.len(),
                i <= n,
                work.wf(),
                staged_wf(staged),
                work.chans() == run_ctxs(m0, Map::empty(), transactions@.take(i as int)).0,
                staged_m(staged) == run_ctxs(m0, Map::empty(), transactions@.take(i as int)).1,
                receipts@.len() == i,
                forall|x: int|
                    0 <= x < i ==> (#[trigger] receipts@[x]).exit_code == run_ctxs(
                        m0,
                        Map::empty(),
                        transactions@.take(i as int),
                    ).2[x].0 && receipts@[x].state_root@ == run_ctxs(
                        m0,
                        Map::empty(),
                        transactions@.take(i as int),
                    ).2[x].1,
            decreases n - i,
        {
            let ghost m_pre = work.chans();
            let ghost s_pre = staged_m(staged);
            let tx = &transactions[i];
            let receipt = match tx {
                RawTransaction::CreateChannel(a) => {
                    match create_channel(&mut work, &mut staged, a) {
                        Some(x) => x,
                        None => {
                            return None;
                        },
                    }
                },
                RawTransaction::UpdateChannel(a) => {
                    match update_channel(&mut work, &mut staged, a) {
                        Some(x) => x,
                        None => {
                            return None;
                        },
                    }
                },
                RawTransaction::CloseChannel(a) => {
                    match close_channel(&mut work, &mut staged, a) {
                        Some(x) => x,
                        None => {
                            return None;
                        },
                    }
                },
            };
            proof {
                let s1 = transactions@.take(i + 1 as int);
                assert(s1.drop_last() =~= transactions@.take(i as int));
                assert(s1.last() == transactions@[i as int]);
                lemma_run_ctxs_len(m0, Map::empty(), s1.drop_last());
                assert(step_ctx(m_pre, s_pre, transactions@[i as int]).0 == work.chans());
                assert(step_ctx(m_pre, s_pre, transactions@[i as int]).1 == staged_m(staged));
            }
            receipts.push(receipt);
            i = i + 1;
        }
        proof {
            assert(transactions@.take(n as int) =~= transactions@);
        }
        let root = work.root();
        let state_root = Hash256::from_bytes(root);
        let mut leaf_hashes: Vec<Hash256> = Vec::new();
        let rn = receipts.len();
        let mut j: usize = 0;
        while j < rn
            invariant
                rn == receipts@.len(),
                j <= rn,
                leaf_hashes@.len() == j,
                forall|x: int|
                    0 <= x < j ==> (#[trigger] leaf_hashes@[x])@ == blake2b_of(
                        enc_receipt_v(receipts@[x].exit_code, receipts@[x].state_root@),
                    ) && leaf_hashes@[x].wf(),
            decreases rn - j,
        {
            let enc = encode_receipt(&receipts[j]);
            leaf_hashes.push(blake2b_hash(&enc));
            j = j + 1;
        }
        proof {
            lemma_run_ctxs_len(m0, Map::empty(), transactions@);
        }
        let receipt_root = cbmt_root_from_hashes(false, &leaf_hashes);
        proof {
            assert(Seq::new(leaf_hashes@.len(), |x: int| leaf_hashes@[x]@) =~= receipt_leaves(
                run_ctxs(m0, Map::empty(), transactions@).2,
            ));
        }
        Some(
            ExecutionReceipt {
                state_root,
                receipt_root,
                transaction_receipts: receipts,
                updated_channels: staged,
            },
        )
    }
}

/// The merkle leaves over a receipt list: the digest of each receipt's wire
/// form, in order.
pub open spec fn receipt_leaves(rs: Seq<(ExecutionExitCode, Seq<u8>)>) -> Seq<Seq<u8>> {
    Seq::new(rs.len(), |i: int| blake2b_of(enc_receipt_v(rs[i].0, rs[i].1)))
}

/// Channel version is strictly monotonic: a successful update or close
/// writes a version above the one it found.
pub proof fn lemma_version_monotonic(m: ChanMap, staged: ChanMap, tx: RawTransaction)
    requires
        step_ctx(m, staged, tx).2 == ExecutionExitCode::Success,
    ensures
        (match tx {
            RawTransaction::UpdateChannel(a) => step_ctx(m, staged, tx).0[chan_at(
                m,
                a.channel_id.le_bytes_spec(),
            ).id.le_bytes_spec()].version > chan_at(m, a.channel_id.le_bytes_spec()).version,
            RawTransaction::CloseChannel(a) => step_ctx(m, staged, tx).0[chan_at(
                m,
                a.channel_id.le_bytes_spec(),
            ).id.le_bytes_spec()].version > chan_at(m, a.channel_id.le_bytes_spec()).version,
            RawTransaction::CreateChannel(_) => true,
        }),
{
}

/// Committing the same write over the same channels rebuilds the same root:
/// what a write hashes to depends on the channels it leaves alone, so a
/// rolled-back overlay replayed on equal contents meets the same root.
pub proof fn lemma_replayed_write_same_root(m1: ChanMap, m2: ChanMap, k: Seq<u8>, c: ChannelV)
    requires
        m1 == m2,
    ensures
        smt_root_of(leaves_of(m1.insert(k, c))) == smt_root_of(leaves_of(m2.insert(k, c))),
{
}

} // verus!
