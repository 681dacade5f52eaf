use vstd::prelude::*;
use crate::encode::le8;
use crate::hashes::{blake2b_hash, blake2b_of};
use crate::primitives::{Addr, Hash256, Uint256, clone_bytes};

verus! {

/// The token a channel settles in.
pub struct Token {
    pub id: Uint256,
    pub symbol: Vec<u8>,
    pub decimal: Uint256,
}

/// A participant's settled share.
#[derive(Clone, Copy, PartialEq, Eq, Structural, Debug)]
pub struct Balance {
    pub settled: u128,
}

impl Balance {
    pub fn new(settled: u128) -> (r: Balance)
        ensures
            r.settled == settled,
    {
        Balance { settled }
    }
}

/// A channel's lifecycle position; `NonExists` is the zero value a sparse
/// merkle tree answers for an empty slot.
#[derive(Clone, Copy, PartialEq, Eq, Structural, Debug)]
pub enum ChannelState {
    NonExists,
    Open,
    Challenge,
    Closed,
}

impl ChannelState {
    pub open spec fn tag_spec(&self) -> u8 {
        match self {
            ChannelState::NonExists => 0,
            ChannelState::Open => 1,
            ChannelState::Challenge => 2,
            ChannelState::Closed => 3,
        }
    }

    pub fn tag(&self) -> (r: u8)
        ensures
            r == self.tag_spec(),
    {
        match self {
            ChannelState::NonExists => 0,
            ChannelState::Open => 1,
            ChannelState::Challenge => 2,
            ChannelState::Closed => 3,
        }
    }
}

/// A payment channel between two participants.
pub struct Channel {
    pub id: Uint256,
    pub token: Token,
    pub participant2: (Addr, Addr),
    pub state: ChannelState,
    pub version: u64,
    pub total_balance: Uint256,
    pub balance2: (Balance, Balance),
}

/// The ghost image of a channel: every field as a plain value.
pub struct ChannelV {
    pub id: Uint256,
    pub token_id: Uint256,
    pub symbol: Seq<u8>,
    pub decimal: Uint256,
    pub p1: Seq<u8>,
    pub p2: Seq<u8>,
    pub state: ChannelState,
    pub version: u64,
    pub total_balance: Uint256,
    pub b1: u128,
    pub b2: u128,
}

impl Channel {
    /// The channel as its ghost image.
    pub open spec fn v(&self) -> ChannelV {
        ChannelV {
            id: self.id,
            token_id: self.token.id,
            symbol: self.token.symbol@,
            decimal: self.token.decimal,
            p1: self.participant2.0@,
            p2: self.participant2.1@,
            state: self.state,
            version: self.version,
            total_balance: self.total_balance,
            b1: self.balance2.0.settled,
            b2: self.balance2.1.settled,
        }
    }

    pub open spec fn wf(&self) -> bool {
        self.participant2.0.wf() && self.participant2.1.wf()
    }

    /// A slot holds a channel when its state is not the zero state.
    pub open spec fn exists_spec(&self) -> bool {
        self.state != ChannelState::NonExists
    }

    /// Whether the slot holds a channel. (The name `exists` is a word of
    /// the verifier, so the method carries this one.)
    pub fn present(&self) -> (r: bool)
        ensures
            r == self.exists_spec(),
    {
        match self.state {
            ChannelState::NonExists => false,
            _ => true,
        }
    }

    /// The zero channel, what an empty slot reads as.
    pub fn zero() -> (r: Channel)
        ensures
            r.v() == zero_channel(),
            r.wf(),
    {
        let r = Channel {
            id: Uint256::zero(),
            token: Token { id: Uint256::zero(), symbol: Vec::new(), decimal: Uint256::zero() },
            participant2: (Addr::from_bytes(zero_bytes(20)), Addr::from_bytes(zero_bytes(20))),
            state: ChannelState::NonExists,
            version: 0,
            total_balance: Uint256::zero(),
            balance2: (Balance { settled: 0 }, Balance { settled: 0 }),
        };
        proof {
            assert(r.v().symbol =~= zero_channel().symbol);
            assert(r.v().p1 =~= zero_channel().p1);
            assert(r.v().p2 =~= zero_channel().p2);
            assert(r.v() == zero_channel());
        }
        r
    }
}

/// The zero channel image: every field zero, two zero addresses.
pub open spec fn zero_channel() -> ChannelV {
    ChannelV {
        id: Uint256 { lo: 0, hi: 0 },
        token_id: Uint256 { lo: 0, hi: 0 },
        symbol: Seq::empty(),
        decimal: Uint256 { lo: 0, hi: 0 },
        p1: Seq::new(20, |i: int| 0u8),
        p2: Seq::new(20, |i: int| 0u8),
        state: ChannelState::NonExists,
        version: 0,
        total_balance: Uint256 { lo: 0, hi: 0 },
        b1: 0,
        b2: 0,
    }
}

/// A run of zero bytes.
pub fn zero_bytes(n: usize) -> (r: Vec<u8>)
    ensures
        r@ == Seq::new(n as nat, |i: int| 0u8),
{
    let mut out: Vec<u8> = Vec::new();
    let mut i: usize = 0;
    while i < n
        invariant
            i <= n,
            out@.len() == i,
            forall|j: int| 0 <= j < i ==> out@[j] == 0u8,
        decreases n - i,
    {
        out.push(0);
        i = i + 1;
    }
    proof {
        assert(out@ =~= Seq::new(n as nat, |i: int| 0u8));
    }
    out
}

impl Clone for Channel {
    fn clone(&self) -> (r: Self)
        ensures
            r.v() == self.v(),
            r.wf() == self.wf(),
    {
        Channel {
            id: self.id,
            token: Token {
                id: self.token.id,
                symbol: clone_bytes(&self.token.symbol),
                decimal: self.token.decimal,
            },
            participant2: (self.participant2.0.clone(), self.participant2.1.clone()),
            state: self.state,
            version: self.version,
            total_balance: self.total_balance,
            balance2: self.balance2,
        }
    }
}

/// The arguments that open a channel.
pub struct CreateChannel {
    pub id: Uint256,
    pub token: Token,
    pub participant2: (Addr, Addr),
    pub balance2: (Balance, Balance),
}

impl CreateChannel {
    pub open spec fn wf(&self) -> bool {
        self.participant2.0.wf() && self.participant2.1.wf()
    }
}

impl Clone for CreateChannel {
    fn clone(&self) -> (r: Self)
        ensures
            enc_create(r) == enc_create(*self),
            r.id == self.id,
            r.participant2.0@ == self.participant2.0@,
            r.participant2.1@ == self.participant2.1@,
            r.balance2 == self.balance2,
            r.token.id == self.token.id,
            r.token.symbol@ == self.token.symbol@,
            r.token.decimal == self.token.decimal,
            r.wf() == self.wf(),
    {
        CreateChannel {
            id: self.id,
            token: Token {
                id: self.token.id,
                symbol: clone_bytes(&self.token.symbol),
                decimal: self.token.decimal,
            },
            participant2: (self.participant2.0.clone(), self.participant2.1.clone()),
            balance2: self.balance2,
        }
    }
}

/// The co-signed arguments that advance a channel's split.
pub struct UpdateChannel {
    pub channel_id: Uint256,
    pub version: u64,
    pub balance2: (Balance, Balance),
    pub signature2: (Vec<u8>, Vec<u8>),
}

impl Clone for UpdateChannel {
    fn clone(&self) -> (r: Self)
        ensures
            r.channel_id == self.channel_id,
            r.version == self.version,
            r.balance2 == self.balance2,
            r.signature2.0@ == self.signature2.0@,
            r.signature2.1@ == self.signature2.1@,
    {
        UpdateChannel {
            channel_id: self.channel_id,
            version: self.version,
            balance2: self.balance2,
            signature2: (clone_bytes(&self.signature2.0), clone_bytes(&self.signature2.1)),
        }
    }
}

/// The co-signed arguments that settle a channel.
pub struct CloseChannel {
    pub channel_id: Uint256,
    pub version: u64,
    pub signature2: (Vec<u8>, Vec<u8>),
}

impl Clone for CloseChannel {
    fn clone(&self) -> (r: Self)
        ensures
            r.channel_id == self.channel_id,
            r.version == self.version,
            r.signature2.0@ == self.signature2.0@,
            r.signature2.1@ == self.signature2.1@,
    {
        CloseChannel {
            channel_id: self.channel_id,
            version: self.version,
            signature2: (clone_bytes(&self.signature2.0), clone_bytes(&self.signature2.1)),
        }
    }
}

/// A balance move inside a channel, carried by the extended alphabet.
pub struct Transfer {
    pub channel_id: Uint256,
    pub to: Addr,
    pub amount: u128,
}

/// A channel-tier transaction body.
pub enum RawTransaction {
    CreateChannel(CreateChannel),
    UpdateChannel(UpdateChannel),
    CloseChannel(CloseChannel),
}

impl Clone for RawTransaction {
    fn clone(&self) -> (r: Self)
        ensures
            enc_c_raw_tx(r) == enc_c_raw_tx(*self),
            raw_ctx_eq(r, *self),
    {
        match self {
            RawTransaction::CreateChannel(a) => RawTransaction::CreateChannel(a.clone()),
            RawTransaction::UpdateChannel(a) => RawTransaction::UpdateChannel(a.clone()),
            RawTransaction::CloseChannel(a) => RawTransaction::CloseChannel(a.clone()),
        }
    }
}

/// Field-for-field sameness of two channel transaction bodies, over views.
pub open spec fn raw_ctx_eq(a: RawTransaction, b: RawTransaction) -> bool {
    match (a, b) {
        (RawTransaction::CreateChannel(x), RawTransaction::CreateChannel(y)) => {
            &&& x.id == y.id
            &&& x.token.id == y.token.id
            &&& x.token.symbol@ == y.token.symbol@
            &&& x.token.decimal == y.token.decimal
            &&& x.participant2.0@ == y.participant2.0@
            &&& x.participant2.1@ == y.participant2.1@
            &&& x.balance2 == y.balance2
        },
        (RawTransaction::UpdateChannel(x), RawTransaction::UpdateChannel(y)) => {
            &&& x.channel_id == y.channel_id
            &&& x.version == y.version
            &&& x.balance2 == y.balance2
            &&& x.signature2.0@ == y.signature2.0@
            &&& x.signature2.1@ == y.signature2.1@
        },
        (RawTransaction::CloseChannel(x), RawTransaction::CloseChannel(y)) => {
            &&& x.channel_id == y.channel_id
            &&& x.version == y.version
            &&& x.signature2.0@ == y.signature2.0@
            &&& x.signature2.1@ == y.signature2.1@
        },
        _ => false,
    }
}

pub proof fn lemma_raw_ctx_eq_refl(a: RawTransaction)
    ensures
        raw_ctx_eq(a, a),
{
}

/// Bodies that carry the same values have the same wire form, so the same
/// hash.
pub proof fn lemma_raw_ctx_eq_enc(a: RawTransaction, b: RawTransaction)
    requires
        raw_ctx_eq(a, b),
    ensures
        enc_c_raw_tx(a) == enc_c_raw_tx(b),
{
}

/// A channel transaction with its signature, sender and hash.
pub struct SignedTransaction {
    pub raw: RawTransaction,
    pub sig: Vec<u8>,
    pub from: Addr,
    pub hash: Hash256,
}

impl SignedTransaction {
    /// The digest of the body's wire form.
    pub fn tx_hash(&self) -> (r: Hash256)
        ensures
            r.wf(),
            r@ == blake2b_of(enc_c_raw_tx(self.raw)),
    {
        let bytes = encode_c_raw_tx(&self.raw);
        blake2b_hash(&bytes)
    }
}

impl Clone for SignedTransaction {
    fn clone(&self) -> (r: Self)
        ensures
            raw_ctx_eq(r.raw, self.raw),
            enc_c_raw_tx(r.raw) == enc_c_raw_tx(self.raw),
            r.sig@ == self.sig@,
            r.from@ == self.from@,
            r.hash@ == self.hash@,
    {
        SignedTransaction {
            raw: self.raw.clone(),
            sig: clone_bytes(&self.sig),
            from: self.from.clone(),
            hash: self.hash.clone(),
        }
    }
}

/// How a transaction's execution ended.
#[derive(Clone, Copy, PartialEq, Eq, Structural, Debug)]
pub enum ExecutionExitCode {
    Success,
    ErrorChannelExists,
    ErrorChannelNotFound,
    ErrorRollbackChannelVersion,
    ErrorUpdateChannelSignature,
}

impl ExecutionExitCode {
    pub open spec fn tag_spec(&self) -> u8 {
        match self {
            ExecutionExitCode::Success => 0,
            ExecutionExitCode::ErrorChannelExists => 1,
            ExecutionExitCode::ErrorChannelNotFound => 2,
            ExecutionExitCode::ErrorRollbackChannelVersion => 3,
            ExecutionExitCode::ErrorUpdateChannelSignature => 4,
        }
    }

    pub fn tag(&self) -> (r: u8)
        ensures
            r == self.tag_spec(),
    {
        match self {
            ExecutionExitCode::Success => 0,
            ExecutionExitCode::ErrorChannelExists => 1,
            ExecutionExitCode::ErrorChannelNotFound => 2,
            ExecutionExitCode::ErrorRollbackChannelVersion => 3,
            ExecutionExitCode::ErrorUpdateChannelSignature => 4,
        }
    }
}

/// One transaction's receipt: its exit code and the state root it left.
pub struct TransactionReceipt {
    pub exit_code: ExecutionExitCode,
    pub state_root: Hash256,
}

impl TransactionReceipt {
    /// The receipt of a transaction that went through.
    pub fn success(state_root: Hash256) -> (r: TransactionReceipt)
        ensures
            r.exit_code == ExecutionExitCode::Success,
            r.state_root@ == state_root@,
    {
        TransactionReceipt { exit_code: ExecutionExitCode::Success, state_root }
    }

    /// The receipt of a refused transaction: the zero root marks that no
    /// write happened.
    pub fn err_res(exit_code: ExecutionExitCode) -> (r: TransactionReceipt)
        ensures
            r.exit_code == exit_code,
            r.state_root.is_zero_spec(),
            r.state_root.wf(),
    {
        TransactionReceipt { exit_code, state_root: Hash256::zero() }
    }
}

impl Clone for TransactionReceipt {
    fn clone(&self) -> (r: Self)
        ensures
            r.exit_code == self.exit_code,
            r.state_root@ == self.state_root@,
    {
        TransactionReceipt { exit_code: self.exit_code, state_root: self.state_root.clone() }
    }
}

/// A channel-tier block header.
pub struct BlockHeader {
    pub number: u64,
    pub parent_hash: Hash256,
    pub timestamp: u128,
    pub state_root: Hash256,
    pub transaction_root: Hash256,
    pub receipt_root: Hash256,
}

impl BlockHeader {
    pub open spec fn wf(&self) -> bool {
        self.parent_hash.wf() && self.state_root.wf() && self.transaction_root.wf()
            && self.receipt_root.wf()
    }
}

impl Clone for BlockHeader {
    fn clone(&self) -> (r: Self)
        ensures
            c_header_eq(r, *self),
            r.wf() == self.wf(),
    {
        BlockHeader {
            number: self.number,
            parent_hash: self.parent_hash.clone(),
            timestamp: self.timestamp,
            state_root: self.state_root.clone(),
            transaction_root: self.transaction_root.clone(),
            receipt_root: self.receipt_root.clone(),
        }
    }
}

/// Field-for-field sameness of two channel headers, over views.
pub open spec fn c_header_eq(a: BlockHeader, b: BlockHeader) -> bool {
    &&& a.number == b.number
    &&& a.parent_hash@ == b.parent_hash@
    &&& a.timestamp == b.timestamp
    &&& a.state_root@ == b.state_root@
    &&& a.transaction_root@ == b.transaction_root@
    &&& a.receipt_root@ == b.receipt_root@
}

pub proof fn lemma_c_header_eq_enc(a: BlockHeader, b: BlockHeader)
    requires
        c_header_eq(a, b),
    ensures
        enc_c_header(a) == enc_c_header(b),
{
}

/// A channel-tier block.
pub struct Block {
    pub header: BlockHeader,
    pub txs: Vec<SignedTransaction>,
}

impl Block {
    /// The digest of the header's wire form.
    pub fn block_hash(&self) -> (r: Hash256)
        ensures
            r.wf(),
            r@ == blake2b_of(enc_c_header(self.header)),
    {
        let bytes = encode_c_header(&self.header);
        blake2b_hash(&bytes)
    }
}

/// Field-for-field sameness of two channel blocks, over views.
pub open spec fn c_block_eq(a: Block, b: Block) -> bool {
    &&& c_header_eq(a.header, b.header)
    &&& a.txs@.len() == b.txs@.len()
    &&& forall|i: int|
        0 <= i < a.txs@.len() ==> raw_ctx_eq(a.txs@[i].raw, b.txs@[i].raw) && a.txs@[i].sig@
            == b.txs@[i].sig@ && a.txs@[i].from@ == b.txs@[i].from@ && a.txs@[i].hash@
            == b.txs@[i].hash@
}

impl Clone for Block {
    fn clone(&self) -> (r: Self)
        ensures
            c_block_eq(r, *self),
            r.header.wf() == self.header.wf(),
    {
        let mut txs: Vec<SignedTransaction> = Vec::new();
        let mut i: usize = 0;
        while i < self.txs.len()
            invariant
                i <= self.txs@.len(),
                txs@.len() == i,
                forall|j: int|
                    0 <= j < i ==> raw_ctx_eq(txs@[j].raw, self.txs@[j].raw) && txs@[j].sig@
                        == self.txs@[j].sig@ && txs@[j].from@ == self.txs@[j].from@
                        && txs@[j].hash@ == self.txs@[j].hash@,
            decreases self.txs@.len() - i,
        {
            txs.push(self.txs[i].clone());
            i = i + 1;
        }
        Block { header: self.header.clone(), txs }
    }
}

/// A way to ask the chain for a block.
pub enum NumberHash {
    Number(u64),
    Hash(Hash256),
}

// ---- the canonical binary wire forms ----

/// A length-prefixed byte string: its length as eight little-endian bytes,
/// then the bytes.
pub open spec fn enc_var_bytes(b: Seq<u8>) -> Seq<u8> {
    le8(b.len() as u64) + b
}

pub open spec fn enc_token(t: Token) -> Seq<u8> {
    t.id.le_bytes_spec() + enc_var_bytes(t.symbol@) + t.decimal.le_bytes_spec()
}

pub open spec fn enc_c_balance(b: Balance) -> Seq<u8> {
    crate::encode::le16(b.settled)
}

/// The wire form of a channel, by its ghost image.
pub open spec fn enc_channel_v(c: ChannelV) -> Seq<u8> {
    c.id.le_bytes_spec() + c.token_id.le_bytes_spec() + enc_var_bytes(c.symbol)
        + c.decimal.le_bytes_spec() + c.p1 + c.p2 + seq![c.state.tag_spec()] + le8(c.version)
        + c.total_balance.le_bytes_spec() + crate::encode::le16(c.b1) + crate::encode::le16(c.b2)
}

pub open spec fn enc_create(a: CreateChannel) -> Seq<u8> {
    a.id.le_bytes_spec() + enc_token(a.token) + a.participant2.0@ + a.participant2.1@
        + enc_c_balance(a.balance2.0) + enc_c_balance(a.balance2.1)
}

/// The co-signed core of an update: everything but the signatures.
pub open spec fn enc_update_core(a: UpdateChannel) -> Seq<u8> {
    a.channel_id.le_bytes_spec() + le8(a.version) + enc_c_balance(a.balance2.0) + enc_c_balance(
        a.balance2.1,
    )
}

pub open spec fn enc_update(a: UpdateChannel) -> Seq<u8> {
    enc_update_core(a) + enc_var_bytes(a.signature2.0@) + enc_var_bytes(a.signature2.1@)
}

/// The co-signed core of a close: everything but the signatures.
pub open spec fn enc_close_core(a: CloseChannel) -> Seq<u8> {
    a.channel_id.le_bytes_spec() + le8(a.version)
}

pub open spec fn enc_close(a: CloseChannel) -> Seq<u8> {
    enc_close_core(a) + enc_var_bytes(a.signature2.0@) + enc_var_bytes(a.signature2.1@)
}

/// A transaction body: a variant tag, then the variant's wire form.
pub open spec fn enc_c_raw_tx(tx: RawTransaction) -> Seq<u8> {
    match tx {
        RawTransaction::CreateChannel(a) => seq![0u8] + enc_create(a),
        RawTransaction::UpdateChannel(a) => seq![1u8] + enc_update(a),
        RawTransaction::CloseChannel(a) => seq![2u8] + enc_close(a),
    }
}

/// What co-signers of an update attest to: the digest of the update with its
/// signatures emptied.
pub open spec fn update_sig_msg(a: UpdateChannel) -> Seq<u8> {
    blake2b_of(enc_update_core(a) + enc_var_bytes(Seq::empty()) + enc_var_bytes(Seq::empty()))
}

/// What co-signers of a close attest to: the digest of the close with its
/// signatures emptied.
pub open spec fn close_sig_msg(a: CloseChannel) -> Seq<u8> {
    blake2b_of(enc_close_core(a) + enc_var_bytes(Seq::empty()) + enc_var_bytes(Seq::empty()))
}

/// A receipt's wire form: exit tag, then the root.
pub open spec fn enc_receipt_v(code: ExecutionExitCode, root: Seq<u8>) -> Seq<u8> {
    seq![code.tag_spec()] + root
}

pub open spec fn enc_c_header(h: BlockHeader) -> Seq<u8> {
    le8(h.number) + h.parent_hash@ + crate::encode::le16(h.timestamp) + h.state_root@
        + h.transaction_root@ + h.receipt_root@
}

pub fn encode_var_bytes(b: &Vec<u8>) -> (out: Vec<u8>)
    ensures
        out@ == enc_var_bytes(b@),
{
    let mut out = crate::encode::le8_bytes(b.len() as u64);
    crate::encode::push_all(&mut out, b);
    out
}

pub fn encode_token(t: &Token) -> (out: Vec<u8>)
    ensures
        out@ == enc_token(*t),
{
    let mut out = t.id.to_le_bytes();
    let p1 = encode_var_bytes(&t.symbol);
    crate::encode::push_all(&mut out, &p1);
    let p2 = t.decimal.to_le_bytes();
    crate::encode::push_all(&mut out, &p2);
    out
}

pub fn encode_channel(c: &Channel) -> (out: Vec<u8>)
    ensures
        out@ == enc_channel_v(c.v()),
{
    let mut out = c.id.to_le_bytes();
    let p1 = c.token.id.to_le_bytes();
    crate::encode::push_all(&mut out, &p1);
    let p2 = encode_var_bytes(&c.token.symbol);
    crate::encode::push_all(&mut out, &p2);
    let p3 = c.token.decimal.to_le_bytes();
    crate::encode::push_all(&mut out, &p3);
    crate::encode::push_all(&mut out, &c.participant2.0.bytes);
    crate::encode::push_all(&mut out, &c.participant2.1.bytes);
    out.push(c.state.tag());
    let p4 = crate::encode::le8_bytes(c.version);
    crate::encode::push_all(&mut out, &p4);
    let p5 = c.total_balance.to_le_bytes();
    crate::encode::push_all(&mut out, &p5);
    let p6 = crate::encode::le16_bytes(c.balance2.0.settled);
    crate::encode::push_all(&mut out, &p6);
    let p7 = crate::encode::le16_bytes(c.balance2.1.settled);
    crate::encode::push_all(&mut out, &p7);
    proof {
        assert(out@ =~= enc_channel_v(c.v()));
    }
    out
}

pub fn encode_create(a: &CreateChannel) -> (out: Vec<u8>)
    ensures
        out@ == enc_create(*a),
{
    let mut out = a.id.to_le_bytes();
    let p1 = encode_token(&a.token);
    crate::encode::push_all(&mut out, &p1);
    crate::encode::push_all(&mut out, &a.participant2.0.bytes);
    crate::encode::push_all(&mut out, &a.participant2.1.bytes);
    let p2 = crate::encode::le16_bytes(a.balance2.0.settled);
    crate::encode::push_all(&mut out, &p2);
    let p3 = crate::encode::le16_bytes(a.balance2.1.settled);
    crate::encode::push_all(&mut out, &p3);
    proof {
        assert(out@ =~= enc_create(*a));
    }
    out
}

fn encode_update_core(a: &UpdateChannel) -> (out: Vec<u8>)
    ensures
        out@ == enc_update_core(*a),
{
    let mut out = a.channel_id.to_le_bytes();
    let p1 = crate::encode::le8_bytes(a.version);
    crate::encode::push_all(&mut out, &p1);
    let p2 = crate::encode::le16_bytes(a.balance2.0.settled);
    crate::encode::push_all(&mut out, &p2);
    let p3 = crate::encode::le16_bytes(a.balance2.1.settled);
    crate::encode::push_all(&mut out, &p3);
    proof {
        assert(out@ =~= enc_update_core(*a));
    }
    out
}

pub fn encode_update(a: &UpdateChannel) -> (out: Vec<u8>)
    ensures
        out@ == enc_update(*a),
{
    let mut out = encode_update_core(a);
    let p1 = encode_var_bytes(&a.signature2.0);
    crate::encode::push_all(&mut out, &p1);
    let p2 = encode_var_bytes(&a.signature2.1);
    crate::encode::push_all(&mut out, &p2);
    proof {
        assert(out@ =~= enc_update(*a));
    }
    out
}

fn encode_close_core(a: &CloseChannel) -> (out: Vec<u8>)
    ensures
        out@ == enc_close_core(*a),
{
    let mut out = a.channel_id.to_le_bytes();
    let p1 = crate::encode::le8_bytes(a.version);
    crate::encode::push_all(&mut out, &p1);
    proof {
        assert(out@ =~= enc_close_core(*a));
    }
    out
}

pub fn encode_close(a: &CloseChannel) -> (out: Vec<u8>)
    ensures
        out@ == enc_close(*a),
{
    let mut out = encode_close_core(a);
    let p1 = encode_var_bytes(&a.signature2.0);
    crate::encode::push_all(&mut out, &p1);
    let p2 = encode_var_bytes(&a.signature2.1);
    crate::encode::push_all(&mut out, &p2);
    proof {
        assert(out@ =~= enc_close(*a));
    }
    out
}

pub fn encode_c_raw_tx(tx: &RawTransaction) -> (out: Vec<u8>)
    ensures
        out@ == enc_c_raw_tx(*tx),
{
    match tx {
        RawTransaction::CreateChannel(a) => {
            let mut out: Vec<u8> = vec![0u8];
            let p = encode_create(a);
            crate::encode::push_all(&mut out, &p);
            proof {
                assert(out@ =~= enc_c_raw_tx(*tx));
            }
            out
        },
        RawTransaction::UpdateChannel(a) => {
            let mut out: Vec<u8> = vec![1u8];
            let p = encode_update(a);
            crate::encode::push_all(&mut out, &p);
            proof {
                assert(out@ =~= enc_c_raw_tx(*tx));
            }
            out
        },
        RawTransaction::CloseChannel(a) => {
            let mut out: Vec<u8> = vec![2u8];
            let p = encode_close(a);
            crate::encode::push_all(&mut out, &p);
            proof {
                assert(out@ =~= enc_c_raw_tx(*tx));
            }
            out
        },
    }
}

/// The digest an update's co-signers attest to.
pub fn sig_msg_update(a: &UpdateChannel) -> (r: Hash256)
    ensures
        r.wf(),
        r@ == update_sig_msg(*a),
{
    let mut bytes = encode_update_core(a);
    let empty: Vec<u8> = Vec::new();
    let p1 = encode_var_bytes(&empty);
    crate::encode::push_all(&mut bytes, &p1);
    let p2 = encode_var_bytes(&empty);
    crate::encode::push_all(&mut bytes, &p2);
    proof {
        assert(bytes@ =~= enc_update_core(*a) + enc_var_bytes(Seq::empty()) + enc_var_bytes(
            Seq::empty(),
        ));
    }
    blake2b_hash(&bytes)
}

/// The digest a close's co-signers attest to.
pub fn sig_msg_close(a: &CloseChannel) -> (r: Hash256)
    ensures
        r.wf(),
        r@ == close_sig_msg(*a),
{
    let mut bytes = encode_close_core(a);
    let empty: Vec<u8> = Vec::new();
    let p1 = encode_var_bytes(&empty);
    crate::encode::push_all(&mut bytes, &p1);
    let p2 = encode_var_bytes(&empty);
    crate::encode::push_all(&mut bytes, &p2);
    proof {
        assert(bytes@ =~= enc_close_core(*a) + enc_var_bytes(Seq::empty()) + enc_var_bytes(
            Seq::empty(),
        ));
    }
    blake2b_hash(&bytes)
}

pub fn encode_receipt(r: &TransactionReceipt) -> (out: Vec<u8>)
    ensures
        out@ == enc_receipt_v(r.exit_code, r.state_root@),
{
    let mut out: Vec<u8> = Vec::new();
    out.push(r.exit_code.tag());
    crate::encode::push_all(&mut out, &r.state_root.bytes);
    proof {
        assert(out@ =~= enc_receipt_v(r.exit_code, r.state_root@));
    }
    out
}

pub fn encode_c_header(h: &BlockHeader) -> (out: Vec<u8>)
    ensures
        out@ == enc_c_header(*h),
{
    let mut out = crate::encode::le8_bytes(h.number);
    crate::encode::push_all(&mut out, &h.parent_hash.bytes);
    let p1 = crate::encode::le16_bytes(h.timestamp);
    crate::encode::push_all(&mut out, &p1);
    crate::encode::push_all(&mut out, &h.state_root.bytes);
    crate::encode::push_all(&mut out, &h.transaction_root.bytes);
    crate::encode::push_all(&mut out, &h.receipt_root.bytes);
    proof {
        assert(out@ =~= enc_c_header(*h));
    }
    out
}

} // verus!
