use vstd::prelude::*;
use crate::trie::no_entries;

verus! {

#[verifier::external_type_specification]
#[verifier::external_body]
#[verifier::reject_recursive_types(H)]
#[verifier::reject_recursive_types(V)]
#[verifier::reject_recursive_types(S)]
pub struct ExSparseMerkleTree<H, V, S>(sparse_merkle_tree::SparseMerkleTree<H, V, S>);

#[verifier::external_type_specification]
#[verifier::external_body]
pub struct ExSmtH256(sparse_merkle_tree::H256);

#[verifier::external_type_specification]
#[verifier::external_body]
#[verifier::reject_recursive_types(V)]
pub struct ExDefaultStore<V>(sparse_merkle_tree::default_store::DefaultStore<V>);

#[verifier::external_type_specification]
#[verifier::external_body]
pub struct ExBlake2bHasher(sparse_merkle_tree::blake2b::Blake2bHasher);

/// The channel tier's sparse merkle tree: 256-bit keys, 32-byte leaf digests,
/// nodes held in the crate's in-memory store.
pub type Smt = sparse_merkle_tree::SparseMerkleTree<
    sparse_merkle_tree::blake2b::Blake2bHasher,
    sparse_merkle_tree::H256,
    sparse_merkle_tree::default_store::DefaultStore<sparse_merkle_tree::H256>,
>;

/// The leaf entries a sparse merkle tree holds: key bytes to leaf digest
/// bytes. Missing keys denote the zero leaf.
pub uninterp spec fn smt_leaves(t: Smt) -> Map<Seq<u8>, Seq<u8>>;

/// The root digest determined by a set of sparse-merkle-tree leaves. The root
/// is a function of the final leaves alone.
pub uninterp spec fn smt_root_of(m: Map<Seq<u8>, Seq<u8>>) -> Seq<u8>;

/// An all-zero 32-byte string: the zero leaf and the root of the empty tree.
pub open spec fn zero32() -> Seq<u8> {
    Seq::new(32, |i: int| 0u8)
}

/// How one leaf write changes the leaf set: writing the zero leaf removes the
/// key, any other digest is stored under it.
pub open spec fn smt_upsert(m: Map<Seq<u8>, Seq<u8>>, k: Seq<u8>, v: Seq<u8>) -> Map<
    Seq<u8>,
    Seq<u8>,
> {
    if v == zero32() {
        m.remove(k)
    } else {
        m.insert(k, v)
    }
}

/// Relies on sparse_merkle_tree::SparseMerkleTree::new with the zero root and
/// an empty store: the empty tree.
#[verifier::external_body]
pub(crate) fn smt_new() -> (t: Smt)
    ensures
        smt_leaves(t) == no_entries(),
{
    sparse_merkle_tree::SparseMerkleTree::new(
        sparse_merkle_tree::H256::zero(),
        Default::default(),
    )
}

/// Relies on sparse_merkle_tree::SparseMerkleTree::update: writes one leaf
/// (removing it when the digest is zero) and returns the new root, a function
/// of the updated leaves; `None` reports a store error.
#[verifier::external_body]
pub(crate) fn smt_update(t: &mut Smt, key: &Vec<u8>, leaf: &Vec<u8>) -> (r: Option<Vec<u8>>)
    requires
        key@.len() == 32,
        leaf@.len() == 32,
    ensures
        match r {
            Some(root) => smt_leaves(*final(t)) == smt_upsert(
                smt_leaves(*old(t)),
                key@,
                leaf@,
            ) && root@ == smt_root_of(smt_leaves(*final(t))) && root@.len() == 32,
            None => true,
        },
{
    let k: [u8; 32] = key.as_slice().try_into().unwrap();
    let v: [u8; 32] = leaf.as_slice().try_into().unwrap();
    match t.update(sparse_merkle_tree::H256::from(k), sparse_merkle_tree::H256::from(v)) {
        Ok(root) => Some(root.as_slice().to_vec()),
        Err(_) => None,
    }
}

/// Relies on sparse_merkle_tree::SparseMerkleTree::root: the current root, a
/// function of the leaves alone; the empty tree's root is the zero digest.
#[verifier::external_body]
pub(crate) fn smt_root(t: &Smt) -> (r: Vec<u8>)
    ensures
        r@ == smt_root_of(smt_leaves(*t)),
        r@.len() == 32,
        smt_leaves(*t) == no_entries() ==> r@ == zero32(),
{
    t.root().as_slice().to_vec()
}

/// Relies on sparse_merkle_tree::SparseMerkleTree::new and DefaultStore's
/// Clone: a tree with the same root over a copy of the same node store, so
/// with the same leaves.
#[verifier::external_body]
pub(crate) fn smt_clone(t: &Smt) -> (r: Smt)
    ensures
        smt_leaves(r) == smt_leaves(*t),
{
    sparse_merkle_tree::SparseMerkleTree::new(*t.root(), t.store().clone())
}

} // verus!
