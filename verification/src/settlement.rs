use vstd::prelude::*;
use crate::channel_chain::ChannelChain;
use crate::encode::le8;
use crate::oracle::ChannelOracle;
use crate::relay::ChannelRelay;

verus! {

/// The upward submission loop's one step.
pub trait Settlement {
    /// Submit the block after the confirmed watermark, when the chain holds
    /// it, and advance the watermark to its number; do nothing otherwise.
    fn submit_block(&self, oracle: &mut ChannelOracle, chain: &ChannelChain, relay: &ChannelRelay)
        requires
            chain.wf(),
            old(oracle).confirmed_blocks_spec() < u64::MAX,
        ensures
            (if chain.numbers_m().contains_key(
                le8((old(oracle).confirmed_blocks_spec() + 1) as u64),
            ) && chain.blocks_m().contains_key(
                chain.numbers_m()[le8((old(oracle).confirmed_blocks_spec() + 1) as u64)]@,
            ) {
                final(oracle).confirmed_blocks_spec() == chain.blocks_m()[
                    chain.numbers_m()[le8((old(oracle).confirmed_blocks_spec() + 1) as u64)]@
                ].header.number
            } else {
                final(oracle).confirmed_blocks_spec() == old(oracle).confirmed_blocks_spec()
            }),
    ;
}

/// The channel tier's settlement: it walks the chain one block past the
/// watermark at each tick.
pub struct ChannelSettlement {}

impl ChannelSettlement {
    pub fn new() -> (r: ChannelSettlement) {
        ChannelSettlement {  }
    }
}

impl Settlement for ChannelSettlement {
    fn submit_block(
        &self,
        oracle: &mut ChannelOracle,
        chain: &ChannelChain,
        relay: &ChannelRelay,
    ) {
        let confirmed = oracle.confirmed_l3_blocks();
        let next = crate::channel_types::NumberHash::Number(confirmed + 1);
        let block = match chain.get_block(&next) {
            Some(b) => b,
            None => {
                return ;
            },
        };
        let copy = block.clone();
        let mut blocks: Vec<crate::channel_types::Block> = Vec::new();
        blocks.push(copy);
        relay.submit_l3_blocks(oracle, &blocks);
    }
}

} // verus!
