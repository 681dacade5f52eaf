use covalent::channel_chain::ChannelChain;
use covalent::channel_consensus::ChannelConsensus;
use covalent::channel_executor::ChannelSmt;
use covalent::channel_mempool::ChannelMap;
use covalent::channel_types::{
    Balance, Channel, ChannelState, CloseChannel, CreateChannel, ExecutionExitCode,
    RawTransaction, Token, UpdateChannel, sig_msg_close, sig_msg_update,
};
use covalent::genesis;
use covalent::oracle::ChannelOracle;
use covalent::primitives::{Addr, Uint256};
use covalent::relay::ChannelRelay;
use covalent::relayer::Relayer;
use covalent::settlement::{ChannelSettlement, Settlement};
use covalent::wallet::{H256Ext, Wallet};

fn u256(n: u128) -> Uint256 {
    Uint256 { lo: n, hi: 0 }
}

fn test_token(id: u128) -> Token {
    Token { id: u256(id), symbol: b"test token".to_vec(), decimal: u256(18) }
}

struct Network {
    mempool: ChannelMap,
    oracle: ChannelOracle,
    chain: ChannelChain,
    committed: ChannelSmt,
    relay: ChannelRelay,
    consensus: ChannelConsensus,
    settlement: ChannelSettlement,
}

impl Network {
    fn start() -> Network {
        let mut chain = ChannelChain::new();
        genesis::init(&mut chain, 1000);
        Network {
            mempool: ChannelMap::new(),
            oracle: ChannelOracle::new(),
            chain,
            committed: ChannelSmt::new(),
            relay: ChannelRelay::new(),
            consensus: ChannelConsensus::new(),
            settlement: ChannelSettlement::new(),
        }
    }

    fn tick(&mut self, timestamp: u128) -> covalent::channel_consensus::ConsensusReceipt {
        let receipt = self
            .consensus
            .produce_block(&self.mempool, &self.committed, &self.chain, timestamp)
            .unwrap();
        assert!(self.chain.apply_consensus_receipt(&receipt, &mut self.committed));
        self.settlement.submit_block(&mut self.oracle, &self.chain, &self.relay);
        self.mempool.reset(&receipt.block);
        receipt
    }
}

#[test]
fn channel_lifecycle_create_update_close() {
    let mut net = Network::start();
    let alice = Wallet::random();
    let bob = Wallet::random();
    let relayer = Relayer::new();

    let channel_id = u256(2077);
    let create = CreateChannel {
        id: channel_id,
        token: test_token(1),
        participant2: (alice.addr(), bob.addr()),
        balance2: (Balance::new(100), Balance::new(0)),
    };
    net.oracle.set_pending_l2_create_channels(vec![create]);
    assert!(relayer.relay_l2_create_channel(&mut net.oracle, &net.relay, &mut net.mempool));
    assert!(net.oracle.pending_l2_create_channels().is_empty());

    let receipt = net.tick(2000);
    assert_eq!(receipt.block.header.number, 1);
    assert_eq!(receipt.transaction_receipts.len(), 1);
    assert!(matches!(receipt.transaction_receipts[0].exit_code, ExecutionExitCode::Success));
    let channel = net.committed.get(&channel_id);
    assert!(matches!(channel.state, ChannelState::Open));
    assert_eq!(channel.version, 0);
    assert_eq!(channel.balance2.0.settled, 100);
    assert_eq!(channel.balance2.1.settled, 0);
    assert_eq!(channel.total_balance.lo, 100);
    assert_eq!(net.oracle.confirmed_l3_blocks(), 1);

    // both participants co-sign the new split
    let mut update = UpdateChannel {
        channel_id,
        version: 1,
        balance2: (Balance::new(50), Balance::new(50)),
        signature2: (Vec::new(), Vec::new()),
    };
    let msg = sig_msg_update(&update);
    update.signature2 = (alice.sign(&msg).unwrap(), bob.sign(&msg).unwrap());
    let update_tx = alice.sign_tx(RawTransaction::UpdateChannel(update)).unwrap();
    net.mempool.push_transaction(update_tx);

    let receipt = net.tick(3000);
    assert_eq!(receipt.block.header.number, 2);
    assert!(matches!(receipt.transaction_receipts[0].exit_code, ExecutionExitCode::Success));
    let channel = net.committed.get(&channel_id);
    assert_eq!(channel.version, 1);
    assert_eq!(channel.balance2.0.settled, 50);
    assert_eq!(channel.balance2.1.settled, 50);

    // both participants co-sign the close
    let mut close = CloseChannel { channel_id, version: 2, signature2: (Vec::new(), Vec::new()) };
    let msg = sig_msg_close(&close);
    close.signature2 = (alice.sign(&msg).unwrap(), bob.sign(&msg).unwrap());
    let close_tx = bob.sign_tx(RawTransaction::CloseChannel(close)).unwrap();
    net.mempool.push_transaction(close_tx);

    let receipt = net.tick(4000);
    assert!(matches!(receipt.transaction_receipts[0].exit_code, ExecutionExitCode::Success));
    let channel = net.committed.get(&channel_id);
    assert!(matches!(channel.state, ChannelState::Closed));
    assert_eq!(channel.version, 2);
    assert_eq!(channel.balance2.0.settled, 50);
    assert_eq!(channel.balance2.1.settled, 50);

    net.oracle.set_pending_l3_withdrawals(vec![channel_id]);
    relayer.relay_l3_withdrawal(&net.oracle);
}

#[test]
fn version_rollback_is_refused_and_leaves_the_channel() {
    let mut net = Network::start();
    let alice = Wallet::random();
    let bob = Wallet::random();
    let channel_id = u256(31);
    let create = CreateChannel {
        id: channel_id,
        token: test_token(1),
        participant2: (alice.addr(), bob.addr()),
        balance2: (Balance::new(10), Balance::new(0)),
    };
    let create_tx = alice.sign_tx(RawTransaction::CreateChannel(create)).unwrap();
    net.mempool.push_transaction(create_tx);
    net.tick(2000);

    let mut up1 = UpdateChannel {
        channel_id,
        version: 1,
        balance2: (Balance::new(5), Balance::new(5)),
        signature2: (Vec::new(), Vec::new()),
    };
    let msg = sig_msg_update(&up1);
    up1.signature2 = (alice.sign(&msg).unwrap(), bob.sign(&msg).unwrap());
    net.mempool.push_transaction(alice.sign_tx(RawTransaction::UpdateChannel(up1)).unwrap());
    net.tick(3000);
    let root_before = net.committed.root();

    // replaying version one must be refused as a rollback
    let mut up_again = UpdateChannel {
        channel_id,
        version: 1,
        balance2: (Balance::new(1), Balance::new(9)),
        signature2: (Vec::new(), Vec::new()),
    };
    let msg = sig_msg_update(&up_again);
    up_again.signature2 = (alice.sign(&msg).unwrap(), bob.sign(&msg).unwrap());
    net.mempool.push_transaction(alice.sign_tx(RawTransaction::UpdateChannel(up_again)).unwrap());
    let receipt = net.tick(4000);
    assert!(matches!(
        receipt.transaction_receipts[0].exit_code,
        ExecutionExitCode::ErrorRollbackChannelVersion
    ));
    let channel = net.committed.get(&channel_id);
    assert_eq!(channel.version, 1);
    assert_eq!(channel.balance2.0.settled, 5);
    assert_eq!(net.committed.root(), root_before);
}

#[test]
fn forged_signature_is_refused() {
    let mut net = Network::start();
    let alice = Wallet::random();
    let bob = Wallet::random();
    let channel_id = u256(32);
    let create = CreateChannel {
        id: channel_id,
        token: test_token(1),
        participant2: (alice.addr(), bob.addr()),
        balance2: (Balance::new(10), Balance::new(0)),
    };
    net.mempool.push_transaction(alice.sign_tx(RawTransaction::CreateChannel(create)).unwrap());
    net.tick(2000);

    let mut update = UpdateChannel {
        channel_id,
        version: 1,
        balance2: (Balance::new(5), Balance::new(5)),
        signature2: (Vec::new(), Vec::new()),
    };
    let msg = sig_msg_update(&update);
    // one honest signature, one arbitrary 65-byte string
    update.signature2 = (alice.sign(&msg).unwrap(), vec![0x5au8; 65]);
    net.mempool.push_transaction(alice.sign_tx(RawTransaction::UpdateChannel(update)).unwrap());
    let receipt = net.tick(3000);
    assert!(matches!(
        receipt.transaction_receipts[0].exit_code,
        ExecutionExitCode::ErrorUpdateChannelSignature
    ));
    let channel = net.committed.get(&channel_id);
    assert_eq!(channel.version, 0);
    assert_eq!(channel.balance2.0.settled, 10);
}

#[test]
fn creating_over_an_existing_channel_is_refused() {
    let mut net = Network::start();
    let alice = Wallet::random();
    let bob = Wallet::random();
    let channel_id = u256(33);
    let create = CreateChannel {
        id: channel_id,
        token: test_token(1),
        participant2: (alice.addr(), bob.addr()),
        balance2: (Balance::new(10), Balance::new(0)),
    };
    net.mempool.push_transaction(
        alice.sign_tx(RawTransaction::CreateChannel(create.clone())).unwrap(),
    );
    net.tick(2000);
    net.mempool.push_transaction(bob.sign_tx(RawTransaction::CreateChannel(create)).unwrap());
    let receipt = net.tick(3000);
    assert!(matches!(
        receipt.transaction_receipts[0].exit_code,
        ExecutionExitCode::ErrorChannelExists
    ));
}

#[test]
fn an_empty_tick_keeps_the_state_root_and_hashes_no_transactions() {
    let mut net = Network::start();
    let root_before = net.committed.root();
    let receipt = net.tick(2000);
    assert_eq!(receipt.block.txs.len(), 0);
    assert_eq!(receipt.block.header.transaction_root.bytes, vec![0u8; 32]);
    assert_eq!(receipt.block.header.state_root.bytes, root_before);
    assert_eq!(net.committed.root(), root_before);
}

#[test]
fn updating_a_missing_channel_is_refused() {
    let mut net = Network::start();
    let alice = Wallet::random();
    let mut update = UpdateChannel {
        channel_id: u256(9999),
        version: 1,
        balance2: (Balance::new(1), Balance::new(1)),
        signature2: (Vec::new(), Vec::new()),
    };
    let msg = sig_msg_update(&update);
    update.signature2 = (alice.sign(&msg).unwrap(), alice.sign(&msg).unwrap());
    net.mempool.push_transaction(alice.sign_tx(RawTransaction::UpdateChannel(update)).unwrap());
    let receipt = net.tick(2000);
    assert!(matches!(
        receipt.transaction_receipts[0].exit_code,
        ExecutionExitCode::ErrorChannelNotFound
    ));
}

#[test]
fn one_transaction_per_sender_per_block() {
    let mut net = Network::start();
    let alice = Wallet::random();
    let bob = Wallet::random();
    for (i, who) in [&alice, &alice, &bob].iter().enumerate() {
        let create = CreateChannel {
            id: u256(100 + i as u128),
            token: test_token(1),
            participant2: (alice.addr(), bob.addr()),
            balance2: (Balance::new(1), Balance::new(0)),
        };
        net.mempool
            .push_transaction(who.sign_tx(RawTransaction::CreateChannel(create)).unwrap());
    }
    let packaged = net.mempool.package_transactions();
    // one per sender: alice's head and bob's only transaction
    assert_eq!(packaged.len(), 2);
}

#[test]
fn test_smt() {
    let mut smt = ChannelSmt::new();
    assert_eq!(smt.root(), vec![0u8; 32]);
    // channel ids key the tree by their little-endian bytes
    let mut expected_key = vec![0u8; 32];
    expected_key[0] = 1;
    assert_eq!(u256(1).to_h256().bytes, expected_key);

    let channel_id = u256(1);
    let channel = Channel {
        id: channel_id,
        token: Token { id: u256(0), symbol: Vec::new(), decimal: u256(0) },
        participant2: (Addr { bytes: vec![0; 20] }, Addr { bytes: vec![0; 20] }),
        state: ChannelState::NonExists,
        version: 0,
        total_balance: u256(0),
        balance2: (Balance::new(0), Balance::new(0)),
    };
    smt.update(channel.clone()).unwrap();
    let got = smt.get(&channel_id);
    assert_eq!(got.id.lo, channel.id.lo);
    assert_eq!(got.version, channel.version);
    assert_eq!(got.balance2.0.settled, channel.balance2.0.settled);
    assert!(matches!(got.state, ChannelState::NonExists));
}
