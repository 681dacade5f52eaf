use vstd::prelude::*;
use crate::hashes::{blake2b_of, blake3_of, blake2b_bytes, blake3_bytes};
use crate::primitives::{Hash256, clone_bytes};
use crate::smt::zero32;

verus! {

/// The internal hash of the complete-binary merkle tree: the digest of the
/// two children's digests, in the tier's hash function.
pub open spec fn merge_digest(b3: bool, l: Seq<u8>, r: Seq<u8>) -> Seq<u8> {
    if b3 {
        blake3_of(l + r)
    } else {
        blake2b_of(l + r)
    }
}

/// Node `i` of the complete binary tree over `leaves`: the last `n` slots of
/// the `2n - 1` node array hold the leaves, every earlier slot the merge of
/// its two children.
pub open spec fn cbmt_node(b3: bool, leaves: Seq<Seq<u8>>, i: int) -> Seq<u8>
    decreases 2 * leaves.len() - 1 - i,
{
    let n = leaves.len() as int;
    if i < 0 || i >= 2 * n - 1 {
        Seq::empty()
    } else if i >= n - 1 {
        leaves[i - (n - 1)]
    } else {
        merge_digest(b3, cbmt_node(b3, leaves, 2 * i + 1), cbmt_node(b3, leaves, 2 * i + 2))
    }
}

/// The root of the complete-binary merkle tree over ordered leaf digests;
/// the zero digest for no leaves.
pub open spec fn cbmt_root_spec(b3: bool, leaves: Seq<Seq<u8>>) -> Seq<u8> {
    if leaves.len() == 0 {
        zero32()
    } else {
        cbmt_node(b3, leaves, 0)
    }
}

fn merge(b3: bool, l: &Vec<u8>, r: &Vec<u8>) -> (out: Vec<u8>)
    ensures
        out@ == merge_digest(b3, l@, r@),
        out@.len() == 32,
{
    let mut buf = clone_bytes(l);
    crate::encode::push_all(&mut buf, r);
    if b3 {
        blake3_bytes(&buf)
    } else {
        blake2b_bytes(&buf)
    }
}

/// The merkle root over a list of 32-byte leaf digests.
pub fn cbmt_root_from_hashes(b3: bool, hashes: &Vec<Hash256>) -> (out: Hash256)
    requires
        hashes@.len() < 0x10000000,
        forall|i: int| 0 <= i < hashes@.len() ==> (#[trigger] hashes@[i]).wf(),
    ensures
        out.wf(),
        out@ == cbmt_root_spec(b3, Seq::new(hashes@.len(), |i: int| hashes@[i]@)),
{
    let ghost leaves = Seq::new(hashes@.len(), |i: int| hashes@[i]@);
    let n = hashes.len();
    if n == 0 {
        return Hash256::zero();
    }
    // the node array: `n - 1` inner slots, then the leaves
    let mut nodes: Vec<Vec<u8>> = Vec::new();
    let mut i: usize = 0;
    while i < n - 1
        invariant
            i <= n - 1,
            nodes@.len() == i,
        decreases n - 1 - i,
    {
        nodes.push(Vec::new());
        i = i + 1;
    }
    let mut j: usize = 0;
    while j < n
        invariant
            n == hashes@.len(),
            forall|x: int| 0 <= x < hashes@.len() ==> (#[trigger] hashes@[x]).wf(),
            leaves == Seq::new(hashes@.len(), |i: int| hashes@[i]@),
            j <= n,
            nodes@.len() == n - 1 + j,
            forall|x: int|
                n - 1 <= x < n - 1 + j ==> (#[trigger] nodes@[x])@ == cbmt_node(b3, leaves, x)
                    && nodes@[x]@.len() == 32,
        decreases n - j,
    {
        proof {
            assert(hashes@[j as int].wf());
        }
        nodes.push(clone_bytes(&hashes[j].bytes));
        j = j + 1;
    }
    let mut k: usize = n - 1;
    while k > 0
        invariant
            n == hashes@.len(),
            0 < n < 0x10000000,
            leaves == Seq::new(hashes@.len(), |i: int| hashes@[i]@),
            k <= n - 1,
            nodes@.len() == 2 * n - 1,
            forall|x: int|
                k <= x < 2 * n - 1 ==> (#[trigger] nodes@[x])@ == cbmt_node(b3, leaves, x)
                    && nodes@[x]@.len() == 32,
        decreases k,
    {
        k = k - 1;
        proof {
            assert(nodes@[2 * (k as int) + 1]@ == cbmt_node(b3, leaves, 2 * (k as int) + 1));
            assert(nodes@[2 * (k as int) + 2]@ == cbmt_node(b3, leaves, 2 * (k as int) + 2));
        }
        let merged = merge(b3, &nodes[2 * k + 1], &nodes[2 * k + 2]);
        nodes[k] = merged;
        proof {
            assert(nodes@[k as int]@ == cbmt_node(b3, leaves, k as int));
        }
    }
    let root = clone_bytes(&nodes[0]);
    proof {
        assert(root@ == cbmt_node(b3, leaves, 0));
        assert(cbmt_node(b3, leaves, 0) == cbmt_root_spec(b3, leaves));
        assert(root@.len() == 32);
    }
    Hash256::from_bytes(root)
}

} // verus!
