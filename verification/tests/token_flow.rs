use cita_trie::Trie;
use covalent::api::RpcImpl;
use covalent::hashes::TokenHasher;
use covalent::primitives::{Addr, Hash256, Uint256};
use covalent::token_chain::CovalentChain;
use covalent::token_consensus::Consensus;
use covalent::token_executor::Executor;
use covalent::token_mempool::{AdmitError, MemPoolImpl};
use covalent::token_state::{TokenState, get_balance};
use covalent::token_types::{
    RawTransaction, SignedTransaction, TokenAction, TransactionRequest, encode_raw_tx,
};

fn addr(b: u8) -> Addr {
    Addr { bytes: vec![b; 20] }
}

fn hash(b: u8) -> Hash256 {
    Hash256 { bytes: vec![b; 32] }
}

fn amount(n: u128) -> Uint256 {
    Uint256 { lo: n, hi: 0 }
}

fn request(a: u8, action: TokenAction, n: u128) -> TransactionRequest {
    TransactionRequest {
        address: addr(a),
        token_id: hash(0xff),
        amount: amount(n),
        action,
        to: None,
    }
}

/// A transaction hashed correctly but not signed; good enough for the
/// executor, which does not verify signatures.
fn unsigned_tx(chain_id: u64, cycles_limit: u64, nonce: u8, reqs: Vec<TransactionRequest>) -> SignedTransaction {
    let raw = RawTransaction {
        chain_id,
        cycles_price: 1,
        cycles_limit,
        nonce: hash(nonce),
        requests: reqs,
        timeout: 0,
        sender: addr(1),
    };
    let tx_hash = TokenHasher::digest_(&encode_raw_tx(&raw));
    SignedTransaction { raw, tx_hash, pub_key: Vec::new(), signature: Vec::new() }
}

/// A transaction signed with the reference ECDSA crypto, as admission wants.
fn signed_tx(chain_id: u64, cycles_limit: u64, nonce: u8, reqs: Vec<TransactionRequest>) -> SignedTransaction {
    let sk = [7u8; 32];
    let raw = RawTransaction {
        chain_id,
        cycles_price: 1,
        cycles_limit,
        nonce: hash(nonce),
        requests: reqs,
        timeout: 0,
        sender: addr(1),
    };
    let tx_hash = TokenHasher::digest_(&encode_raw_tx(&raw));
    let sig = <ophelia_secp256k1::Secp256k1 as ophelia::Crypto>::sign_message(
        &tx_hash.bytes,
        &sk,
    )
    .unwrap();
    let pk = <ophelia_secp256k1::Secp256k1 as ophelia::Crypto>::pub_key(&sk).unwrap();
    SignedTransaction {
        raw,
        tx_hash,
        pub_key: ophelia::PublicKey::to_bytes(&pk).to_vec(),
        signature: ophelia::Signature::to_bytes(&sig).to_vec(),
    }
}

#[test]
fn mint_then_lock_settles_the_split() {
    let mut state = TokenState::new();
    let mut executor = Executor::new();
    let tx1 = unsigned_tx(1, 10, 1, vec![request(1, TokenAction::Mint, 100)]);
    let tx2 = unsigned_tx(1, 10, 2, vec![request(1, TokenAction::Lock, 40)]);
    let resp = executor.exec(&mut state, &vec![tx1, tx2]).unwrap();
    assert_eq!(resp.inner.len(), 2);
    assert!(resp.inner[0].error.is_none());
    assert!(resp.inner[1].error.is_none());
    let bal = get_balance(&state, &addr(1), &hash(0xff));
    assert_eq!(bal.active.lo, 60);
    assert_eq!(bal.locked.lo, 40);
}

#[test]
fn unlock_underflow_rolls_back_only_its_transaction() {
    let mut state = TokenState::new();
    let mut executor = Executor::new();
    let tx1 = unsigned_tx(1, 10, 1, vec![
        request(1, TokenAction::Mint, 100),
        request(1, TokenAction::Lock, 40),
    ]);
    let tx2 = unsigned_tx(1, 10, 2, vec![request(1, TokenAction::Unlock, 50)]);
    let resp = executor.exec(&mut state, &vec![tx1, tx2]).unwrap();
    assert!(resp.inner[0].error.is_none());
    let err = resp.inner[1].error.as_ref().unwrap();
    assert_eq!(err.error_code, 1);
    assert_eq!(err.error_message, "LockedAmountLessThanUnlock");
    let bal = get_balance(&state, &addr(1), &hash(0xff));
    assert_eq!(bal.active.lo, 60);
    assert_eq!(bal.locked.lo, 40);
}

#[test]
fn transfer_moves_active_balance() {
    let mut state = TokenState::new();
    let mut executor = Executor::new();
    let mut t = request(1, TokenAction::Transfer, 30);
    t.to = Some(addr(2));
    let tx = unsigned_tx(1, 10, 1, vec![request(1, TokenAction::Mint, 100), t]);
    let resp = executor.exec(&mut state, &vec![tx]).unwrap();
    assert!(resp.inner[0].error.is_none());
    assert_eq!(get_balance(&state, &addr(1), &hash(0xff)).active.lo, 70);
    assert_eq!(get_balance(&state, &addr(2), &hash(0xff)).active.lo, 30);
}

#[test]
fn state_root_matches_an_independent_trie() {
    let mut state = TokenState::new();
    let mut executor = Executor::new();
    let tx = unsigned_tx(1, 10, 1, vec![request(1, TokenAction::Mint, 100)]);
    let resp = executor.exec(&mut state, &vec![tx]).unwrap();

    // rebuild the two tries by hand with the outside crate
    let mut balance_trie = cita_trie::PatriciaTrie::new(
        std::sync::Arc::new(cita_trie::MemoryDB::new(false)),
        std::sync::Arc::new(cita_hasher::HasherKeccak::new()),
    );
    let bal = get_balance(&state, &addr(1), &hash(0xff));
    balance_trie
        .insert(vec![0xff; 32], covalent::token_types::encode_balance(&bal))
        .unwrap();
    let balance_root = balance_trie.root().unwrap();

    let account = covalent::token_types::Account {
        address: addr(1),
        balance_root: Hash256 { bytes: balance_root },
    };
    let mut state_trie = cita_trie::PatriciaTrie::new(
        std::sync::Arc::new(cita_trie::MemoryDB::new(false)),
        std::sync::Arc::new(cita_hasher::HasherKeccak::new()),
    );
    state_trie
        .insert(vec![1u8; 20], covalent::token_types::encode_account(&account))
        .unwrap();
    let expected_root = state_trie.root().unwrap();
    assert_eq!(resp.state_root.bytes, expected_root);
}

#[test]
fn admission_rejects_a_mismatched_hash() {
    let mut pool = MemPoolImpl::new(100, 1);
    let mut tx = signed_tx(1, 10, 1, vec![request(1, TokenAction::Mint, 5)]);
    tx.tx_hash = hash(0);
    assert_eq!(pool.insert(tx), Err(AdmitError::TxHashMismatch));
    assert_eq!(pool.package(u64::MAX).len(), 0);
}

#[test]
fn admission_rejects_wrong_chain_cycles_and_signature() {
    let mut pool = MemPoolImpl::new(100, 1);
    let wrong_chain = signed_tx(2, 10, 1, vec![request(1, TokenAction::Mint, 5)]);
    assert_eq!(pool.insert(wrong_chain), Err(AdmitError::InvalidChainId));
    let heavy = signed_tx(1, 100001, 2, vec![request(1, TokenAction::Mint, 5)]);
    assert_eq!(pool.insert(heavy), Err(AdmitError::ExceedCycleLimit));
    let mut forged = signed_tx(1, 10, 3, vec![request(1, TokenAction::Mint, 5)]);
    forged.signature = vec![1u8; 64];
    assert_eq!(pool.insert(forged), Err(AdmitError::InvalidSignature));
    let mut bad_transfer = request(1, TokenAction::Transfer, 5);
    bad_transfer.to = None;
    let t = signed_tx(1, 10, 4, vec![bad_transfer]);
    assert_eq!(pool.insert(t), Err(AdmitError::InvalidTransferRequest));
}

#[test]
fn packaging_stops_at_the_first_overflowing_transaction() {
    let mut pool = MemPoolImpl::new(100, 1);
    pool.insert(signed_tx(1, 10, 1, vec![request(1, TokenAction::Mint, 5)])).unwrap();
    pool.insert(signed_tx(1, 25, 2, vec![request(1, TokenAction::Mint, 5)])).unwrap();
    pool.insert(signed_tx(1, 10, 3, vec![request(1, TokenAction::Mint, 5)])).unwrap();
    let packaged = pool.package(30);
    // the second transaction overflows the budget and iteration halts there
    assert_eq!(packaged.len(), 1);
    assert_eq!(packaged[0].raw.cycles_limit, 10);
    let sum: u64 = packaged.iter().map(|t| t.raw.cycles_limit).sum();
    assert!(sum <= 30);
}

#[test]
fn an_admitted_transaction_is_packaged_until_removed() {
    let mut pool = MemPoolImpl::new(100, 1);
    let tx = signed_tx(1, 10, 1, vec![request(1, TokenAction::Mint, 5)]);
    let h = tx.tx_hash.clone();
    pool.insert(tx).unwrap();
    let packaged = pool.package(u64::MAX);
    assert!(packaged.iter().any(|t| t.tx_hash.bytes == h.bytes));
    pool.remove(&vec![h.clone()]);
    assert_eq!(pool.package(u64::MAX).len(), 0);
}

#[test]
fn a_block_tick_commits_and_indexes_the_block() {
    let mut trie_state = TokenState::new();
    let mut pool = MemPoolImpl::new(100, 1);
    let mut chain = CovalentChain::new();
    pool.insert(signed_tx(1, 10, 1, vec![request(1, TokenAction::Mint, 100)])).unwrap();
    let mut consensus = Consensus::new(1, addr(9));
    let block = consensus.produce_block(&mut trie_state, &pool, &mut chain, 777).unwrap();
    assert_eq!(block.header.number, 1);
    assert_eq!(block.header.timestamp, 777);
    assert_eq!(block.txs.len(), 1);
    let fetched = chain.get_block_by_number(1).unwrap();
    assert_eq!(fetched.header.state_root.bytes, block.header.state_root.bytes);
    // the produced state root reflects the executed mint
    assert_eq!(get_balance(&trie_state, &addr(1), &hash(0xff)).active.lo, 100);
    let latest = chain.get_latest_block().unwrap();
    assert_eq!(latest.number, 1);
}

#[test]
fn logs_are_kept_under_the_transaction_hash() {
    let mut state = TokenState::new();
    let mut executor = Executor::new();
    let tx = unsigned_tx(1, 10, 1, vec![
        request(1, TokenAction::Mint, 0x64),
        request(1, TokenAction::Lock, 0x40),
    ]);
    let h = tx.tx_hash.clone();
    executor.exec(&mut state, &vec![tx]).unwrap();
    let logs = executor.logs_of(&h).unwrap();
    assert_eq!(logs.len(), 2);
    let expected_name = format!("0x{}", "01".repeat(20));
    assert_eq!(logs[0].name(), &expected_name);
    assert_eq!(logs[0].data(), &format!("active add {}{}", "0".repeat(62), "64"));
    assert_eq!(logs[1].data(), &format!("active to lock {}{}", "0".repeat(62), "40"));
    // a hash the executor never saw has no lines
    let other = Hash256 { bytes: vec![9u8; 32] };
    assert!(executor.logs_of(&other).is_none());
}

#[test]
fn rpc_surface_answers_from_its_parts() {
    let state = TokenState::new();
    let chain = CovalentChain::new();
    let pool = MemPoolImpl::new(100, 1);
    let mut rpc = RpcImpl::new(state, chain, pool);
    let tx = signed_tx(1, 10, 1, vec![request(1, TokenAction::Mint, 5)]);
    rpc.send_transaction(tx).unwrap();
    assert!(rpc.get_block_by_number(1).is_none());
    assert!(rpc.get_transaction_by_hash(&hash(9)).is_none());
    let bal = rpc.get_balance(&addr(1), &hash(0xff));
    assert_eq!(bal.active.lo, 0);
    assert_eq!(bal.locked.lo, 0);
}
