use vstd::prelude::*;
use cita_trie::Trie;

verus! {

/// The Patricia trie the token tier derives its roots from, over the outside
/// crate's in-memory node store and its Keccak node hasher (the hasher trait
/// is the trie crate's own, which a verified type cannot implement, so the
/// published hasher stands in; every contract reads roots only through
/// `mpt_root_of`, so none depends on the node-hash choice). The trie type's
/// parameters are bounded by traits of the outside crate, which Verus cannot
/// take in a declaration, so the whole trie is held behind this opaque
/// struct.
#[verifier::external_body]
pub struct Mpt {
    inner: cita_trie::PatriciaTrie<cita_trie::MemoryDB, cita_hasher::HasherKeccak>,
}

/// An empty set of byte-keyed entries.
pub open spec fn no_entries() -> Map<Seq<u8>, Seq<u8>> {
    Map::empty()
}

/// The key-to-value entries a Patricia trie holds.
pub uninterp spec fn mpt_contents(t: Mpt) -> Map<Seq<u8>, Seq<u8>>;

/// The content-addressed root digest of a set of Patricia trie entries. A
/// Merkle Patricia trie root is a function of the final entries alone, not of
/// the order in which they were inserted.
pub uninterp spec fn mpt_root_of(m: Map<Seq<u8>, Seq<u8>>) -> Seq<u8>;

/// Relies on cita_trie::PatriciaTrie::new: a fresh trie over an empty
/// in-memory store holds no entries.
#[verifier::external_body]
pub(crate) fn mpt_new() -> (t: Mpt)
    ensures
        mpt_contents(t) == no_entries(),
{
    Mpt {
        inner: cita_trie::PatriciaTrie::new(
            std::sync::Arc::new(cita_trie::MemoryDB::new(false)),
            std::sync::Arc::new(cita_hasher::HasherKeccak::new()),
        ),
    }
}

/// Relies on cita_trie::Trie::insert: stores the value under the key; an
/// empty value removes the key instead. `false` reports a trie error, after
/// which nothing more is claimed of the trie.
#[verifier::external_body]
pub(crate) fn mpt_insert(t: &mut Mpt, key: &Vec<u8>, value: &Vec<u8>) -> (r: bool)
    ensures
        (r && value@.len() > 0) ==> mpt_contents(*final(t)) == mpt_contents(*old(t)).insert(
            key@,
            value@,
        ),
        (r && value@.len() == 0) ==> mpt_contents(*final(t)) == mpt_contents(*old(t)).remove(
            key@,
        ),
{
    t.inner.insert(key.clone(), value.clone()).is_ok()
}

/// Relies on cita_trie::Trie::root: the root digest of the trie, a function
/// of its entries alone; `None` reports a trie error.
#[verifier::external_body]
pub(crate) fn mpt_root(t: &mut Mpt) -> (r: Option<Vec<u8>>)
    ensures
        match r {
            Some(v) => v@ == mpt_root_of(mpt_contents(*old(t))) && v@.len() == 32,
            None => mpt_contents(*final(t)) == mpt_contents(*old(t)),
        },
{
    match t.inner.root() {
        Ok(v) => Some(v),
        Err(_) => None,
    }
}

} // verus!
