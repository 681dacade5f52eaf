use vstd::prelude::*;
use crate::channel_types::CreateChannel;
use crate::primitives::Uint256;

verus! {

/// The oracle's four records of cross-tier facts: the confirmed block
/// watermark, confirmed and pending withdrawals, and pending channel-open
/// requests bound for the channel tier.
pub struct ChannelOracle {
    confirmed_l3_blocks: u64,
    confirmed_l3_withdrawals: Vec<Uint256>,
    pending_l3_withdrawals: Vec<Uint256>,
    pending_l2_create_channels: Vec<CreateChannel>,
}

impl ChannelOracle {
    pub closed spec fn confirmed_blocks_spec(&self) -> u64 {
        self.confirmed_l3_blocks
    }

    pub closed spec fn confirmed_withdrawals_spec(&self) -> Seq<Uint256> {
        self.confirmed_l3_withdrawals@
    }

    pub closed spec fn pending_withdrawals_spec(&self) -> Seq<Uint256> {
        self.pending_l3_withdrawals@
    }

    pub closed spec fn pending_creates_spec(&self) -> Seq<CreateChannel> {
        self.pending_l2_create_channels@
    }

    /// A fresh oracle: nothing confirmed, nothing pending.
    pub fn new() -> (r: ChannelOracle)
        ensures
            r.confirmed_blocks_spec() == 0,
            r.confirmed_withdrawals_spec() =~= Seq::<Uint256>::empty(),
            r.pending_withdrawals_spec() =~= Seq::<Uint256>::empty(),
            r.pending_creates_spec() =~= Seq::<CreateChannel>::empty(),
    {
        ChannelOracle {
            confirmed_l3_blocks: 0,
            confirmed_l3_withdrawals: Vec::new(),
            pending_l3_withdrawals: Vec::new(),
            pending_l2_create_channels: Vec::new(),
        }
    }

    pub fn set_confirmed_l3_blocks(&mut self, blocks: u64)
        ensures
            final(self).confirmed_blocks_spec() == blocks,
            final(self).confirmed_withdrawals_spec() == old(self).confirmed_withdrawals_spec(),
            final(self).pending_withdrawals_spec() == old(self).pending_withdrawals_spec(),
            final(self).pending_creates_spec() == old(self).pending_creates_spec(),
    {
        self.confirmed_l3_blocks = blocks;
    }

    pub fn set_confirmed_l3_withdrawals(&mut self, channels: Vec<Uint256>)
        ensures
            final(self).confirmed_withdrawals_spec() == channels@,
            final(self).confirmed_blocks_spec() == old(self).confirmed_blocks_spec(),
            final(self).pending_withdrawals_spec() == old(self).pending_withdrawals_spec(),
            final(self).pending_creates_spec() == old(self).pending_creates_spec(),
    {
        self.confirmed_l3_withdrawals = channels;
    }

    pub fn set_pending_l3_withdrawals(&mut self, channels: Vec<Uint256>)
        ensures
            final(self).pending_withdrawals_spec() == channels@,
            final(self).confirmed_blocks_spec() == old(self).confirmed_blocks_spec(),
            final(self).confirmed_withdrawals_spec() == old(self).confirmed_withdrawals_spec(),
            final(self).pending_creates_spec() == old(self).pending_creates_spec(),
    {
        self.pending_l3_withdrawals = channels;
    }

    pub fn set_pending_l2_create_channels(&mut self, create_channels: Vec<CreateChannel>)
        ensures
            final(self).pending_creates_spec() == create_channels@,
            final(self).confirmed_blocks_spec() == old(self).confirmed_blocks_spec(),
            final(self).confirmed_withdrawals_spec() == old(self).confirmed_withdrawals_spec(),
            final(self).pending_withdrawals_spec() == old(self).pending_withdrawals_spec(),
    {
        self.pending_l2_create_channels = create_channels;
    }

    pub fn confirmed_l3_blocks(&self) -> (r: u64)
        ensures
            r == self.confirmed_blocks_spec(),
    {
        self.confirmed_l3_blocks
    }

    pub fn confirmed_l3_withdrawals(&self) -> (r: &Vec<Uint256>)
        ensures
            r@ == self.confirmed_withdrawals_spec(),
    {
        &self.confirmed_l3_withdrawals
    }

    pub fn pending_l3_withdrawals(&self) -> (r: &Vec<Uint256>)
        ensures
            r@ == self.pending_withdrawals_spec(),
    {
        &self.pending_l3_withdrawals
    }

    pub fn pending_l2_create_channels(&self) -> (r: &Vec<CreateChannel>)
        ensures
            r@ == self.pending_creates_spec(),
    {
        &self.pending_l2_create_channels
    }
}

} // verus!
