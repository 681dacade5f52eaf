use vstd::prelude::*;
use crate::channel_mempool::ChannelMap;
use crate::channel_types::{Block, RawTransaction, SignedTransaction};
use crate::oracle::ChannelOracle;
use crate::primitives::Uint256;

verus! {

/// The cross-tier shuttle: it hands channel-open transactions to the
/// mempool and records upward submissions in the oracle.
pub struct ChannelRelay {}

impl ChannelRelay {
    pub fn new() -> (r: ChannelRelay) {
        ChannelRelay {  }
    }

    /// Enqueue a signed channel-open transaction.
    pub fn submit_l2_create_channel(&self, mempool: &mut ChannelMap, tx: SignedTransaction)
        requires
            old(mempool).wf(),
        ensures
            final(mempool).wf(),
            final(mempool).m() == old(mempool).m().insert(
                tx.from@,
                (if old(mempool).m().contains_key(tx.from@) {
                    old(mempool).m()[tx.from@]
                } else {
                    Seq::empty()
                }).push(tx),
            ),
    {
        mempool.push_transaction(tx);
    }

    /// Record the last of a batch of submitted blocks as the confirmed
    /// watermark; an empty batch records nothing.
    pub fn submit_l3_blocks(&self, oracle: &mut ChannelOracle, blocks: &Vec<Block>)
        ensures
            blocks@.len() > 0 ==> final(oracle).confirmed_blocks_spec()
                == blocks@.last().header.number,
            blocks@.len() == 0 ==> final(oracle).confirmed_blocks_spec() == old(
                oracle,
            ).confirmed_blocks_spec(),
            final(oracle).pending_creates_spec() == old(oracle).pending_creates_spec(),
            final(oracle).pending_withdrawals_spec() == old(oracle).pending_withdrawals_spec(),
    {
        if blocks.len() > 0 {
            let last = &blocks[blocks.len() - 1];
            oracle.set_confirmed_l3_blocks(last.header.number);
        }
    }

    /// Record a close's channel as a confirmed withdrawal. Only a close may
    /// come this way.
    pub fn submit_l3_withdrawals(&self, oracle: &mut ChannelOracle, tx: &SignedTransaction)
        requires
            tx.raw is CloseChannel,
        ensures
            (match tx.raw {
                RawTransaction::CloseChannel(a) => final(oracle).confirmed_withdrawals_spec()
                    =~= seq![a.channel_id],
                _ => false,
            }),
            final(oracle).confirmed_blocks_spec() == old(oracle).confirmed_blocks_spec(),
            final(oracle).pending_creates_spec() == old(oracle).pending_creates_spec(),
            final(oracle).pending_withdrawals_spec() == old(oracle).pending_withdrawals_spec(),
    {
        match &tx.raw {
            RawTransaction::CloseChannel(args) => {
                let mut ids: Vec<Uint256> = Vec::new();
                ids.push(args.channel_id);
                oracle.set_confirmed_l3_withdrawals(ids);
            },
            _ => {},
        }
    }
}

} // verus!
