use vstd::prelude::*;
use crate::primitives::{Addr, Hash256, Uint256, clone_bytes};
use crate::encode::{
    ascii_chars, ascii_string, hex_bytes, hex_of, lemma_hex_bytes_ascii, push_all, rlp_encode_list,
    rlp_encode_str, rlp_encode_u128, rlp_encode_u256, rlp_encode_u64, rlp_list, rlp_str, rlp_uint,
};

verus! {

/// The token-action alphabet. `Transfer` moves active balance to another
/// account and carries the recipient in the request's `to` field.
#[derive(Clone, Copy, PartialEq, Eq, Structural, Debug)]
pub enum TokenAction {
    Mint,
    Lock,
    Unlock,
    Divert,
    Transfer,
}

impl TokenAction {
    /// The numeric code of the action in its wire form.
    pub open spec fn code_spec(&self) -> u8 {
        match self {
            TokenAction::Mint => 0,
            TokenAction::Lock => 1,
            TokenAction::Unlock => 2,
            TokenAction::Divert => 3,
            TokenAction::Transfer => 4,
        }
    }

    pub fn code(&self) -> (r: u8)
        ensures
            r == self.code_spec(),
    {
        match self {
            TokenAction::Mint => 0,
            TokenAction::Lock => 1,
            TokenAction::Unlock => 2,
            TokenAction::Divert => 3,
            TokenAction::Transfer => 4,
        }
    }
}

/// A per-token balance: the locked and the freely usable part.
#[derive(Clone, Copy, PartialEq, Eq, Structural, Debug)]
pub struct TokenBalance {
    pub locked: Uint256,
    pub active: Uint256,
}

impl TokenBalance {
    pub fn zero() -> (r: TokenBalance)
        ensures
            r.locked.val() == 0,
            r.active.val() == 0,
    {
        TokenBalance { locked: Uint256::zero(), active: Uint256::zero() }
    }

    /// Both parts zero: the sentinel that drives lazy loading from the trie.
    pub open spec fn is_uninitialized_spec(&self) -> bool {
        self.locked.val() == 0 && self.active.val() == 0
    }

    pub fn is_uninitialized(&self) -> (r: bool)
        ensures
            r == self.is_uninitialized_spec(),
    {
        self.locked.is_zero() && self.active.is_zero()
    }
}

/// An account in the state trie: its address and the root of its balance
/// trie; the all-zero root marks an account whose balances were never
/// touched.
pub struct Account {
    pub address: Addr,
    pub balance_root: Hash256,
}

impl Account {
    pub open spec fn wf(&self) -> bool {
        self.address.wf() && self.balance_root.wf()
    }
}

impl Clone for Account {
    fn clone(&self) -> (r: Self)
        ensures
            r.address@ == self.address@,
            r.balance_root@ == self.balance_root@,
    {
        Account { address: self.address.clone(), balance_root: self.balance_root.clone() }
    }
}

/// One balance move inside a transaction.
pub struct TransactionRequest {
    pub address: Addr,
    pub token_id: Hash256,
    pub amount: Uint256,
    pub action: TokenAction,
    pub to: Option<Addr>,
}

impl TransactionRequest {
    pub open spec fn wf(&self) -> bool {
        &&& self.address.wf()
        &&& self.token_id.wf()
        &&& match self.to {
            Some(a) => a.wf(),
            None => true,
        }
    }
}

impl Clone for TransactionRequest {
    fn clone(&self) -> (r: Self)
        ensures
            r.address@ == self.address@,
            r.token_id@ == self.token_id@,
            r.amount == self.amount,
            r.action == self.action,
            match (r.to, self.to) {
                (Some(a), Some(b)) => a@ == b@,
                (None, None) => true,
                _ => false,
            },
            req_eq(r, *self),
            r.wf() == self.wf(),
    {
        TransactionRequest {
            address: self.address.clone(),
            token_id: self.token_id.clone(),
            amount: self.amount,
            action: self.action,
            to: match &self.to {
                Some(a) => Some(a.clone()),
                None => None,
            },
        }
    }
}

/// The signed-over body of a token transaction.
pub struct RawTransaction {
    pub chain_id: u64,
    pub cycles_price: u64,
    pub cycles_limit: u64,
    pub nonce: Hash256,
    pub requests: Vec<TransactionRequest>,
    pub timeout: u64,
    pub sender: Addr,
}

impl RawTransaction {
    pub open spec fn wf(&self) -> bool {
        &&& self.nonce.wf()
        &&& self.sender.wf()
        &&& forall|i: int| 0 <= i < self.requests@.len() ==> self.requests@[i].wf()
    }
}

impl Clone for RawTransaction {
    fn clone(&self) -> (r: Self)
        ensures
            raw_eq(r, *self),
            r.wf() == self.wf(),
    {
        let mut requests: Vec<TransactionRequest> = Vec::new();
        let mut i: usize = 0;
        while i < self.requests.len()
            invariant
                i <= self.requests@.len(),
                requests@.len() == i,
                forall|j: int|
                    0 <= j < i ==> req_eq(requests@[j], self.requests@[j]) && requests@[j].wf()
                        == self.requests@[j].wf(),
            decreases self.requests@.len() - i,
        {
            let rq = self.requests[i].clone();
            requests.push(rq);
            i = i + 1;
        }
        RawTransaction {
            chain_id: self.chain_id,
            cycles_price: self.cycles_price,
            cycles_limit: self.cycles_limit,
            nonce: self.nonce.clone(),
            requests,
            timeout: self.timeout,
            sender: self.sender.clone(),
        }
    }
}

/// A token transaction with its hash and signing material.
pub struct SignedTransaction {
    pub raw: RawTransaction,
    pub tx_hash: Hash256,
    pub pub_key: Vec<u8>,
    pub signature: Vec<u8>,
}

impl SignedTransaction {
    pub open spec fn wf(&self) -> bool {
        self.raw.wf() && self.tx_hash.wf()
    }

    pub fn cycle_limit(&self) -> (r: u64)
        ensures
            r == self.raw.cycles_limit,
    {
        self.raw.cycles_limit
    }

    pub fn chain_id(&self) -> (r: u64)
        ensures
            r == self.raw.chain_id,
    {
        self.raw.chain_id
    }
}

impl Clone for SignedTransaction {
    fn clone(&self) -> (r: Self)
        ensures
            raw_eq(r.raw, self.raw),
            enc_raw_tx(r.raw) == enc_raw_tx(self.raw),
            r.raw.wf() == self.raw.wf(),
            r.tx_hash@ == self.tx_hash@,
            r.pub_key@ == self.pub_key@,
            r.signature@ == self.signature@,
    {
        let c = SignedTransaction {
            raw: self.raw.clone(),
            tx_hash: self.tx_hash.clone(),
            pub_key: clone_bytes(&self.pub_key),
            signature: clone_bytes(&self.signature),
        };
        proof {
            lemma_raw_eq_enc(c.raw, self.raw);
        }
        c
    }
}

/// A block header of the token tier.
pub struct Header {
    pub chain_id: u64,
    pub number: u64,
    pub prev_hash: Hash256,
    pub timestamp: u128,
    pub transaction_root: Hash256,
    pub state_root: Hash256,
    pub cycles_limit: u64,
    pub proposer: Addr,
}

impl Header {
    pub open spec fn wf(&self) -> bool {
        &&& self.prev_hash.wf()
        &&& self.transaction_root.wf()
        &&& self.state_root.wf()
        &&& self.proposer.wf()
    }
}

impl Clone for Header {
    fn clone(&self) -> (r: Self)
        ensures
            r.chain_id == self.chain_id,
            r.number == self.number,
            r.prev_hash@ == self.prev_hash@,
            r.timestamp == self.timestamp,
            r.transaction_root@ == self.transaction_root@,
            r.state_root@ == self.state_root@,
            r.cycles_limit == self.cycles_limit,
            r.proposer@ == self.proposer@,
    {
        Header {
            chain_id: self.chain_id,
            number: self.number,
            prev_hash: self.prev_hash.clone(),
            timestamp: self.timestamp,
            transaction_root: self.transaction_root.clone(),
            state_root: self.state_root.clone(),
            cycles_limit: self.cycles_limit,
            proposer: self.proposer.clone(),
        }
    }
}

/// A block: header and the transactions it packaged.
pub struct Block {
    pub header: Header,
    pub txs: Vec<SignedTransaction>,
}

/// Field-for-field sameness of two headers, over views.
pub open spec fn header_eq(a: Header, b: Header) -> bool {
    &&& a.chain_id == b.chain_id
    &&& a.number == b.number
    &&& a.prev_hash@ == b.prev_hash@
    &&& a.timestamp == b.timestamp
    &&& a.transaction_root@ == b.transaction_root@
    &&& a.state_root@ == b.state_root@
    &&& a.cycles_limit == b.cycles_limit
    &&& a.proposer@ == b.proposer@
}

/// Field-for-field sameness of two signed transactions, over views.
pub open spec fn stx_view_eq(a: SignedTransaction, b: SignedTransaction) -> bool {
    &&& raw_eq(a.raw, b.raw)
    &&& a.tx_hash@ == b.tx_hash@
    &&& a.pub_key@ == b.pub_key@
    &&& a.signature@ == b.signature@
}

/// Field-for-field sameness of two blocks, over views.
pub open spec fn block_eq(a: Block, b: Block) -> bool {
    &&& header_eq(a.header, b.header)
    &&& a.txs@.len() == b.txs@.len()
    &&& forall|i: int|
        0 <= i < a.txs@.len() ==> raw_eq(a.txs@[i].raw, b.txs@[i].raw) && a.txs@[i].tx_hash@
            == b.txs@[i].tx_hash@ && a.txs@[i].pub_key@ == b.txs@[i].pub_key@
            && a.txs@[i].signature@ == b.txs@[i].signature@
}

impl Clone for Block {
    fn clone(&self) -> (r: Self)
        ensures
            block_eq(r, *self),
            r.header.wf() == self.header.wf(),
    {
        let mut txs: Vec<SignedTransaction> = Vec::new();
        let mut i: usize = 0;
        while i < self.txs.len()
            invariant
                i <= self.txs@.len(),
                txs@.len() == i,
                forall|j: int|
                    0 <= j < i ==> raw_eq(txs@[j].raw, self.txs@[j].raw) && txs@[j].tx_hash@
                        == self.txs@[j].tx_hash@ && txs@[j].pub_key@ == self.txs@[j].pub_key@
                        && txs@[j].signature@ == self.txs@[j].signature@,
            decreases self.txs@.len() - i,
        {
            txs.push(self.txs[i].clone());
            i = i + 1;
        }
        Block { header: self.header.clone(), txs }
    }
}

impl Block {
    /// The Blake3 digest of the header's list encoding.
    pub fn header_hash(&self) -> (r: Hash256)
        requires
            self.header.wf(),
        ensures
            r.wf(),
            r@ == crate::hashes::blake3_of(enc_header(self.header)),
    {
        let bytes = encode_header(&self.header);
        crate::hashes::TokenHasher::digest_(&bytes)
    }
}

/// What one block execution returned: the new state root and one response
/// per transaction, in order.
pub struct BlockExecuteResponse {
    pub state_root: Hash256,
    pub inner: Vec<ExecuteResponse>,
}

/// The outcome of one transaction.
pub struct ExecuteResponse {
    pub tx_hash: Hash256,
    pub ret: Vec<u8>,
    pub error: Option<ExecuteError>,
}

/// A stable error code with its text.
pub struct ExecuteError {
    pub error_code: u32,
    pub error_message: String,
}

/// The per-transaction failure causes of the token executor.
#[derive(Clone, Copy, PartialEq, Eq, Structural, Debug)]
pub enum TransactionError {
    ActiveAmountLessThanLock,
    LockedAmountLessThanUnlock,
    ActiveAmountLessThanDivert,
    ActiveAmountLessThanTransfer,
    /// A balance would no longer fit in 256 bits; the transaction is
    /// rejected whole rather than wrapping or stopping the block.
    BalanceOverflow,
}

impl TransactionError {
    pub open spec fn code_spec(&self) -> u32 {
        match self {
            TransactionError::ActiveAmountLessThanLock => 0,
            TransactionError::LockedAmountLessThanUnlock => 1,
            TransactionError::ActiveAmountLessThanDivert => 2,
            TransactionError::ActiveAmountLessThanTransfer => 3,
            TransactionError::BalanceOverflow => 4,
        }
    }

    pub open spec fn message_spec(&self) -> Seq<char> {
        match self {
            TransactionError::ActiveAmountLessThanLock => "ActiveAmountLessThanLock"@,
            TransactionError::LockedAmountLessThanUnlock => "LockedAmountLessThanUnlock"@,
            TransactionError::ActiveAmountLessThanDivert => "ActiveAmountLessThanDivert"@,
            TransactionError::ActiveAmountLessThanTransfer => "ActiveAmountLessThanTransfer"@,
            TransactionError::BalanceOverflow => "BalanceOverflow"@,
        }
    }

    /// The error as it appears in a transaction's response.
    pub fn to_execute_error(&self) -> (r: ExecuteError)
        ensures
            r.error_code == self.code_spec(),
            r.error_message@ == self.message_spec(),
    {
        match self {
            TransactionError::ActiveAmountLessThanLock => ExecuteError {
                error_code: 0,
                error_message: "ActiveAmountLessThanLock".to_owned(),
            },
            TransactionError::LockedAmountLessThanUnlock => ExecuteError {
                error_code: 1,
                error_message: "LockedAmountLessThanUnlock".to_owned(),
            },
            TransactionError::ActiveAmountLessThanDivert => ExecuteError {
                error_code: 2,
                error_message: "ActiveAmountLessThanDivert".to_owned(),
            },
            TransactionError::ActiveAmountLessThanTransfer => ExecuteError {
                error_code: 3,
                error_message: "ActiveAmountLessThanTransfer".to_owned(),
            },
            TransactionError::BalanceOverflow => ExecuteError {
                error_code: 4,
                error_message: "BalanceOverflow".to_owned(),
            },
        }
    }
}

/// A transaction's receipt: its hash, the root it left, and its recorded
/// balance movements.
pub struct TransactionReceipt {
    pub tx_hash: Hash256,
    pub state_root: Hash256,
    pub logs: Vec<Log>,
}

/// One balance movement recorded for a transaction.
pub struct Log {
    name: String,
    data: String,
}

impl Log {
    pub fn new(name: String, data: String) -> (r: Log)
        ensures
            r.name_spec() == name@,
            r.data_spec() == data@,
    {
        Log { name, data }
    }

    pub closed spec fn name_spec(&self) -> Seq<char> {
        self.name@
    }

    pub closed spec fn data_spec(&self) -> Seq<char> {
        self.data@
    }

    /// The account the line speaks of, as text.
    pub fn name(&self) -> (r: &String)
        ensures
            r@ == self.name_spec(),
    {
        &self.name
    }

    /// The movement the line records, as text.
    pub fn data(&self) -> (r: &String)
        ensures
            r@ == self.data_spec(),
    {
        &self.data
    }
}

impl Clone for Log {
    fn clone(&self) -> (r: Self)
        ensures
            r.name_spec() == self.name_spec(),
            r.data_spec() == self.data_spec(),
    {
        Log { name: self.name.clone(), data: self.data.clone() }
    }
}

/// Which way a request moved balance.
#[derive(Clone, Copy, PartialEq, Eq, Structural, Debug)]
pub enum FlowDirection {
    ActiveAdd,
    ActiveToLock,
    LockToActive,
    ActiveReduce,
}

impl FlowDirection {
    /// The ASCII bytes of the direction's text: "active add", "active to
    /// lock", "lock to active" or "active reduce".
    pub open spec fn text_spec(&self) -> Seq<u8> {
        match self {
            FlowDirection::ActiveAdd => seq![
                0x61u8, 0x63, 0x74, 0x69, 0x76, 0x65, 0x20, 0x61, 0x64, 0x64,
            ],
            FlowDirection::ActiveToLock => seq![
                0x61u8, 0x63, 0x74, 0x69, 0x76, 0x65, 0x20, 0x74, 0x6f, 0x20, 0x6c, 0x6f, 0x63,
                0x6b,
            ],
            FlowDirection::LockToActive => seq![
                0x6cu8, 0x6f, 0x63, 0x6b, 0x20, 0x74, 0x6f, 0x20, 0x61, 0x63, 0x74, 0x69, 0x76,
                0x65,
            ],
            FlowDirection::ActiveReduce => seq![
                0x61u8, 0x63, 0x74, 0x69, 0x76, 0x65, 0x20, 0x72, 0x65, 0x64, 0x75, 0x63, 0x65,
            ],
        }
    }

    /// The direction's text as bytes.
    pub fn text(&self) -> (r: Vec<u8>)
        ensures
            r@ == self.text_spec(),
            forall|i: int| 0 <= i < r@.len() ==> r@[i] < 0x80,
    {
        let v: Vec<u8> = match self {
            FlowDirection::ActiveAdd => vec![
                0x61u8, 0x63, 0x74, 0x69, 0x76, 0x65, 0x20, 0x61, 0x64, 0x64,
            ],
            FlowDirection::ActiveToLock => vec![
                0x61u8, 0x63, 0x74, 0x69, 0x76, 0x65, 0x20, 0x74, 0x6f, 0x20, 0x6c, 0x6f, 0x63,
                0x6b,
            ],
            FlowDirection::LockToActive => vec![
                0x6cu8, 0x6f, 0x63, 0x6b, 0x20, 0x74, 0x6f, 0x20, 0x61, 0x63, 0x74, 0x69, 0x76,
                0x65,
            ],
            FlowDirection::ActiveReduce => vec![
                0x61u8, 0x63, 0x74, 0x69, 0x76, 0x65, 0x20, 0x72, 0x65, 0x64, 0x75, 0x63, 0x65,
            ],
        };
        proof {
            assert(v@ =~= self.text_spec());
        }
        v
    }
}

/// The text a log line names its account with: the hex form of the address
/// behind its prefix.
pub open spec fn log_name_text(addr: Seq<u8>) -> Seq<char> {
    ascii_chars(seq![0x30u8, 0x78u8] + hex_bytes(addr))
}

/// The text of one log line: the direction, a space, and the amount's
/// big-endian hex form.
pub open spec fn log_text(flow: FlowDirection, amount: Uint256) -> Seq<char> {
    ascii_chars(flow.text_spec() + seq![0x20u8] + hex_bytes(amount.le_bytes_spec().reverse()))
}

/// One log line's text: the direction and the amount moved.
pub fn gen_log(flow: FlowDirection, amount: &Uint256) -> (r: String)
    ensures
        r@ == log_text(flow, *amount),
{
    let mut bytes = flow.text(); // direction words
    bytes.push(0x20);
    let le = amount.to_le_bytes();
    let be = reverse_bytes(&le);
    let hx = hex_of(&be);
    push_all(&mut bytes, &hx);
    proof {
        lemma_hex_bytes_ascii(be@);
        assert(bytes@ =~= flow.text_spec() + seq![0x20u8] + hex_bytes(
            amount.le_bytes_spec().reverse(),
        ));
    }
    ascii_string(&bytes)
}

/// A byte string in the opposite order.
pub fn reverse_bytes(v: &Vec<u8>) -> (r: Vec<u8>)
    ensures
        r@ == v@.reverse(),
{
    let mut out: Vec<u8> = Vec::new();
    let mut i: usize = v.len();
    while i > 0
        invariant
            i <= v@.len(),
            out@.len() == v@.len() - i,
            forall|j: int| 0 <= j < out@.len() ==> out@[j] == v@[v@.len() - 1 - j],
        decreases i,
    {
        i = i - 1;
        out.push(v[i]);
    }
    proof {
        assert(out@ =~= v@.reverse());
    }
    out
}

// ---- canonical list encodings ----

/// The wire form of an action: a one-item list holding its code.
pub open spec fn enc_action(a: TokenAction) -> Seq<u8> {
    rlp_list(rlp_uint(a.code_spec() as nat))
}

/// The wire form of a request's optional recipient: a list of zero or one
/// addresses.
pub open spec fn enc_to(to: Option<Addr>) -> Seq<u8> {
    match to {
        Some(a) => rlp_list(rlp_str(a@)),
        None => rlp_list(Seq::empty()),
    }
}

/// The wire form of one request.
pub open spec fn enc_request(r: TransactionRequest) -> Seq<u8> {
    rlp_list(
        rlp_str(r.address@) + rlp_str(r.token_id@) + rlp_uint(r.amount.val()) + enc_action(
            r.action,
        ) + enc_to(r.to),
    )
}

/// The concatenated wire forms of a request sequence.
pub open spec fn enc_requests_payload(s: Seq<TransactionRequest>) -> Seq<u8>
    decreases s.len(),
{
    if s.len() == 0 {
        Seq::empty()
    } else {
        enc_requests_payload(s.drop_last()) + enc_request(s.last())
    }
}

/// The wire form of a raw transaction; its hash is the transaction hash.
pub open spec fn enc_raw_tx(raw: RawTransaction) -> Seq<u8> {
    rlp_list(
        rlp_uint(raw.chain_id as nat) + rlp_uint(raw.cycles_price as nat) + rlp_uint(
            raw.cycles_limit as nat,
        ) + rlp_str(raw.nonce@) + rlp_list(enc_requests_payload(raw.requests@)) + rlp_uint(
            raw.timeout as nat,
        ) + rlp_str(raw.sender@),
    )
}

/// The wire form of a balance, by its two numbers.
pub open spec fn enc_balance_v(locked: nat, active: nat) -> Seq<u8> {
    rlp_list(rlp_uint(locked) + rlp_uint(active))
}

/// The wire form of a balance, the value stored in a balance trie.
pub open spec fn enc_balance(b: TokenBalance) -> Seq<u8> {
    enc_balance_v(b.locked.val(), b.active.val())
}

/// The wire form of an account record, by the views of its two fields.
pub open spec fn enc_account_v(addr: Seq<u8>, root: Seq<u8>) -> Seq<u8> {
    rlp_list(rlp_str(addr) + rlp_str(root))
}

/// The wire form of an account, the value stored in the state trie.
pub open spec fn enc_account(a: Account) -> Seq<u8> {
    enc_account_v(a.address@, a.balance_root@)
}

/// The wire form of a header; its hash is the block hash.
pub open spec fn enc_header(h: Header) -> Seq<u8> {
    rlp_list(
        rlp_uint(h.chain_id as nat) + rlp_uint(h.number as nat) + rlp_str(h.prev_hash@)
            + rlp_uint(h.timestamp as nat) + rlp_str(h.transaction_root@) + rlp_str(h.state_root@)
            + rlp_uint(h.cycles_limit as nat) + rlp_str(h.proposer@),
    )
}

pub fn encode_request(r: &TransactionRequest) -> (out: Vec<u8>)
    ensures
        out@ == enc_request(*r),
{
    let mut payload = rlp_encode_str(&r.address.bytes);
    let p1 = rlp_encode_str(&r.token_id.bytes);
    push_all(&mut payload, &p1);
    let p2 = rlp_encode_u256(&r.amount);
    push_all(&mut payload, &p2);
    let code_enc = rlp_encode_u64(r.action.code() as u64);
    let action_enc = rlp_encode_list(&code_enc);
    push_all(&mut payload, &action_enc);
    let to_payload: Vec<u8> = match &r.to {
        Some(a) => rlp_encode_str(&a.bytes),
        None => Vec::new(),
    };
    let to_enc = rlp_encode_list(&to_payload);
    push_all(&mut payload, &to_enc);
    let out = rlp_encode_list(&payload);
    proof {
        assert(payload@ =~= rlp_str(r.address@) + rlp_str(r.token_id@) + rlp_uint(
            r.amount.val(),
        ) + enc_action(r.action) + enc_to(r.to));
    }
    out
}

pub fn encode_raw_tx(raw: &RawTransaction) -> (out: Vec<u8>)
    ensures
        out@ == enc_raw_tx(*raw),
{
    let mut reqs_payload: Vec<u8> = Vec::new();
    let mut i: usize = 0;
    while i < raw.requests.len()
        invariant
            i <= raw.requests@.len(),
            reqs_payload@ == enc_requests_payload(raw.requests@.subrange(0, i as int)),
        decreases raw.requests@.len() - i,
    {
        let re = encode_request(&raw.requests[i]);
        push_all(&mut reqs_payload, &re);
        proof {
            let s = raw.requests@.subrange(0, i + 1 as int);
            assert(s.drop_last() =~= raw.requests@.subrange(0, i as int));
            assert(s.last() == raw.requests@[i as int]);
        }
        i = i + 1;
    }
    proof {
        assert(raw.requests@.subrange(0, raw.requests@.len() as int) =~= raw.requests@);
    }
    let mut payload = rlp_encode_u64(raw.chain_id);
    let p1 = rlp_encode_u64(raw.cycles_price);
    push_all(&mut payload, &p1);
    let p2 = rlp_encode_u64(raw.cycles_limit);
    push_all(&mut payload, &p2);
    let p3 = rlp_encode_str(&raw.nonce.bytes);
    push_all(&mut payload, &p3);
    let p4 = rlp_encode_list(&reqs_payload);
    push_all(&mut payload, &p4);
    let p5 = rlp_encode_u64(raw.timeout);
    push_all(&mut payload, &p5);
    let p6 = rlp_encode_str(&raw.sender.bytes);
    push_all(&mut payload, &p6);
    let out = rlp_encode_list(&payload);
    proof {
        assert(payload@ =~= rlp_uint(raw.chain_id as nat) + rlp_uint(raw.cycles_price as nat)
            + rlp_uint(raw.cycles_limit as nat) + rlp_str(raw.nonce@) + rlp_list(
            enc_requests_payload(raw.requests@),
        ) + rlp_uint(raw.timeout as nat) + rlp_str(raw.sender@));
    }
    out
}

pub fn encode_balance(b: &TokenBalance) -> (out: Vec<u8>)
    ensures
        out@ == enc_balance(*b),
        out@.len() > 0,
{
    let mut payload = rlp_encode_u256(&b.locked);
    let p1 = rlp_encode_u256(&b.active);
    push_all(&mut payload, &p1);
    let out = rlp_encode_list(&payload);
    proof {
        assert(payload@ =~= rlp_uint(b.locked.val()) + rlp_uint(b.active.val()));
    }
    out
}

pub fn encode_account(a: &Account) -> (out: Vec<u8>)
    ensures
        out@ == enc_account(*a),
        out@.len() > 0,
{
    let mut payload = rlp_encode_str(&a.address.bytes);
    let p1 = rlp_encode_str(&a.balance_root.bytes);
    push_all(&mut payload, &p1);
    let out = rlp_encode_list(&payload);
    proof {
        assert(payload@ =~= rlp_str(a.address@) + rlp_str(a.balance_root@));
    }
    out
}

pub fn encode_header(h: &Header) -> (out: Vec<u8>)
    ensures
        out@ == enc_header(*h),
{
    let mut payload = rlp_encode_u64(h.chain_id);
    let p1 = rlp_encode_u64(h.number);
    push_all(&mut payload, &p1);
    let p2 = rlp_encode_str(&h.prev_hash.bytes);
    push_all(&mut payload, &p2);
    let p3 = rlp_encode_u128(h.timestamp);
    push_all(&mut payload, &p3);
    let p4 = rlp_encode_str(&h.transaction_root.bytes);
    push_all(&mut payload, &p4);
    let p5 = rlp_encode_str(&h.state_root.bytes);
    push_all(&mut payload, &p5);
    let p6 = rlp_encode_u64(h.cycles_limit);
    push_all(&mut payload, &p6);
    let p7 = rlp_encode_str(&h.proposer.bytes);
    push_all(&mut payload, &p7);
    let out = rlp_encode_list(&payload);
    proof {
        assert(payload@ =~= rlp_uint(h.chain_id as nat) + rlp_uint(h.number as nat) + rlp_str(
            h.prev_hash@,
        ) + rlp_uint(h.timestamp as nat) + rlp_str(h.transaction_root@) + rlp_str(h.state_root@)
            + rlp_uint(h.cycles_limit as nat) + rlp_str(h.proposer@));
    }
    out
}

/// The payload of a successful response: the string "tx 0x<hash hex>
/// success" in its wire form.
pub open spec fn resp_payload(h: Seq<u8>) -> Seq<u8> {
    rlp_str(
        seq![0x74u8, 0x78, 0x20, 0x30, 0x78] + hex_bytes(h) + seq![
            0x20u8, 0x73, 0x75, 0x63, 0x63, 0x65, 0x73, 0x73,
        ],
    )
}

/// The success payload for a transaction hash.
pub fn gen_resp(tx_hash: &Hash256) -> (r: Vec<u8>)
    ensures
        r@ == resp_payload(tx_hash@),
{
    let mut bytes: Vec<u8> = vec![0x74u8, 0x78, 0x20, 0x30, 0x78];
    let hx = hex_of(&tx_hash.bytes);
    push_all(&mut bytes, &hx);
    let tailv: Vec<u8> = vec![0x20u8, 0x73, 0x75, 0x63, 0x63, 0x65, 0x73, 0x73];
    push_all(&mut bytes, &tailv);
    proof {
        assert(bytes@ =~= seq![0x74u8, 0x78, 0x20, 0x30, 0x78] + hex_bytes(tx_hash@) + seq![
            0x20u8, 0x73, 0x75, 0x63, 0x63, 0x65, 0x73, 0x73,
        ]);
    }
    rlp_encode_str(&bytes)
}

// ---- value equality across clones ----

/// Field-for-field sameness of two requests, over views.
pub open spec fn req_eq(a: TransactionRequest, b: TransactionRequest) -> bool {
    &&& a.address@ == b.address@
    &&& a.token_id@ == b.token_id@
    &&& a.amount == b.amount
    &&& a.action == b.action
    &&& match (a.to, b.to) {
        (Some(x), Some(y)) => x@ == y@,
        (None, None) => true,
        _ => false,
    }
}

/// Field-for-field sameness of two raw transactions, over views.
pub open spec fn raw_eq(a: RawTransaction, b: RawTransaction) -> bool {
    &&& a.chain_id == b.chain_id
    &&& a.cycles_price == b.cycles_price
    &&& a.cycles_limit == b.cycles_limit
    &&& a.nonce@ == b.nonce@
    &&& a.timeout == b.timeout
    &&& a.sender@ == b.sender@
    &&& a.requests@.len() == b.requests@.len()
    &&& forall|i: int| 0 <= i < a.requests@.len() ==> req_eq(a.requests@[i], b.requests@[i])
}

pub proof fn lemma_req_eq_enc(a: TransactionRequest, b: TransactionRequest)
    requires
        req_eq(a, b),
    ensures
        enc_request(a) == enc_request(b),
{
}

pub proof fn lemma_header_eq_enc(a: Header, b: Header)
    requires
        header_eq(a, b),
    ensures
        enc_header(a) == enc_header(b),
{
}

pub proof fn lemma_raw_eq_enc(a: RawTransaction, b: RawTransaction)
    requires
        raw_eq(a, b),
    ensures
        enc_raw_tx(a) == enc_raw_tx(b),
{
    lemma_req_seq_enc(a.requests@, b.requests@);
}

proof fn lemma_req_seq_enc(a: Seq<TransactionRequest>, b: Seq<TransactionRequest>)
    requires
        a.len() == b.len(),
        forall|i: int| 0 <= i < a.len() ==> req_eq(a[i], b[i]),
    ensures
        enc_requests_payload(a) == enc_requests_payload(b),
    decreases a.len(),
{
    if a.len() > 0 {
        assert(forall|i: int|
            0 <= i < a.drop_last().len() ==> req_eq(a.drop_last()[i], b.drop_last()[i]));
        lemma_req_seq_enc(a.drop_last(), b.drop_last());
        lemma_req_eq_enc(a.last(), b.last());
    }
}

} // verus!
