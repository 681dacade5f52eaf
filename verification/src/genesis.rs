use vstd::prelude::*;
use crate::channel_chain::ChannelChain;
use crate::channel_types::{Block, BlockHeader, c_header_eq};
use crate::encode::{le8, le16};
use crate::hashes::blake2b_of;
use crate::primitives::Hash256;
use crate::smt::zero32;

verus! {

/// The wire form of the genesis header: number zero over the zero parent,
/// the zero state, transaction and receipt roots, and the boot timestamp.
pub open spec fn genesis_header_bytes(timestamp: u128) -> Seq<u8> {
    le8(0) + zero32() + le16(timestamp) + zero32() + zero32() + zero32()
}

/// Bootstrap the channel chain: when no block zero is on record, write the
/// genesis block — number zero, zero parent, zero roots, no transactions —
/// and point the tip at it; when block zero is already there, change
/// nothing, so a second call is a no-op.
pub fn init(chain: &mut ChannelChain, timestamp: u128)
    requires
        old(chain).wf(),
    ensures
        final(chain).wf(),
        old(chain).numbers_m().contains_key(le8(0)) && old(chain).blocks_m().contains_key(
            old(chain).numbers_m()[le8(0)]@,
        ) ==> *final(chain) == *old(chain),
        final(chain).numbers_m().contains_key(le8(0)),
        !(old(chain).numbers_m().contains_key(le8(0)) && old(chain).blocks_m().contains_key(
            old(chain).numbers_m()[le8(0)]@,
        )) ==> {
            &&& final(chain).numbers_m()[le8(0)]@ == blake2b_of(genesis_header_bytes(timestamp))
            &&& final(chain).blocks_m().contains_key(blake2b_of(genesis_header_bytes(timestamp)))
            &&& final(chain).blocks_m()[
                blake2b_of(genesis_header_bytes(timestamp))
            ].header.number == 0
            &&& final(chain).blocks_m()[
                blake2b_of(genesis_header_bytes(timestamp))
            ].header.parent_hash@ == zero32()
            &&& final(chain).blocks_m()[
                blake2b_of(genesis_header_bytes(timestamp))
            ].header.timestamp == timestamp
            &&& final(chain).blocks_m()[
                blake2b_of(genesis_header_bytes(timestamp))
            ].header.state_root@ == zero32()
            &&& final(chain).blocks_m()[
                blake2b_of(genesis_header_bytes(timestamp))
            ].header.transaction_root@ == zero32()
            &&& final(chain).blocks_m()[
                blake2b_of(genesis_header_bytes(timestamp))
            ].header.receipt_root@ == zero32()
            &&& final(chain).blocks_m()[
                blake2b_of(genesis_header_bytes(timestamp))
            ].txs@.len() == 0
            &&& (match final(chain).tip_spec() {
                Some(h) => h@ == blake2b_of(genesis_header_bytes(timestamp)),
                None => false,
            })
        },
{
    let zero = crate::channel_types::NumberHash::Number(0);
    match chain.get_block(&zero) {
        Some(_) => {
            return ;
        },
        None => {},
    }
    let header = BlockHeader {
        number: 0,
        parent_hash: Hash256::zero(),
        timestamp,
        state_root: Hash256::zero(),
        transaction_root: Hash256::zero(),
        receipt_root: Hash256::zero(),
    };
    let block = Block { header, txs: Vec::new() };
    proof {
        assert(block.header.parent_hash@ =~= zero32());
        assert(block.header.state_root@ =~= zero32());
        assert(block.header.transaction_root@ =~= zero32());
        assert(block.header.receipt_root@ =~= zero32());
        assert(crate::channel_types::enc_c_header(block.header) =~= genesis_header_bytes(
            timestamp,
        ));
    }
    let block_hash = block.block_hash();
    chain.insert_block(block);
    chain.set_tip_block(block_hash);
}

} // verus!
