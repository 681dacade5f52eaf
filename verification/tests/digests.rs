use covalent::cbmt::cbmt_root_from_hashes;
use sha3::Digest;
use covalent::channel_chain::key;
use covalent::hashes::{TokenHasher, blake2b_hash};
use covalent::primitives::{Hash256, Uint256};
use covalent::token_types::{FlowDirection, gen_log};
use covalent::wallet::{Wallet, pk_address};

fn hash(b: u8) -> Hash256 {
    Hash256 { bytes: vec![b; 32] }
}

fn reference_blake2b(data: &[u8]) -> [u8; 32] {
    let mut buf = [0u8; 32];
    let mut state = blake2b_ref::Blake2bBuilder::new(32).personal(b"zk pika! pi~~~").build();
    state.update(data);
    state.finalize(&mut buf);
    buf
}

#[test]
fn token_digest_is_blake3() {
    let data = b"covalent".to_vec();
    let got = TokenHasher::digest_(&data);
    assert_eq!(got.bytes.as_slice(), blake3::hash(b"covalent").as_bytes());
    // and not the input handed back
    assert_ne!(got.bytes, data);
}

#[test]
fn channel_digest_is_personalized_blake2b() {
    let data = b"covalent".to_vec();
    let got = blake2b_hash(&data);
    assert_eq!(got.bytes.as_slice(), &reference_blake2b(b"covalent")[..]);
}

#[test]
fn namespaced_keys_separate_the_trees() {
    let h = hash(0xaa);
    let block_key = key(&b"BLOCK".to_vec(), &h);
    let tx_key = key(&b"TRANSACTION".to_vec(), &h);
    assert_ne!(block_key.bytes, tx_key.bytes);
    let mut joined = b"BLOCK".to_vec();
    joined.extend_from_slice(&h.bytes);
    assert_eq!(block_key.bytes.as_slice(), &reference_blake2b(&joined)[..]);
}

#[test]
fn merkle_root_matches_the_reference_tree() {
    struct MergeRef;
    impl merkle_cbt::merkle_tree::Merge for MergeRef {
        type Item = [u8; 32];
        fn merge(l: &[u8; 32], r: &[u8; 32]) -> [u8; 32] {
            let mut joined = l.to_vec();
            joined.extend_from_slice(r);
            reference_blake2b(&joined)
        }
    }
    let leaves: Vec<[u8; 32]> = vec![[1; 32], [2; 32], [3; 32], [4; 32], [5; 32]];
    let tree: merkle_cbt::MerkleTree<[u8; 32], MergeRef> =
        merkle_cbt::CBMT::<[u8; 32], MergeRef>::build_merkle_tree(&leaves);
    let expected = tree.root();

    let hashes: Vec<Hash256> = leaves.iter().map(|l| Hash256 { bytes: l.to_vec() }).collect();
    let got = cbmt_root_from_hashes(false, &hashes);
    assert_eq!(got.bytes.as_slice(), &expected[..]);
}

#[test]
fn merkle_root_of_nothing_is_zero() {
    let got = cbmt_root_from_hashes(true, &Vec::new());
    assert_eq!(got.bytes, vec![0u8; 32]);
}

#[test]
fn recovered_address_matches_the_signer() {
    let wallet = Wallet::random();
    let msg = hash(0x42);
    let sig = wallet.sign(&msg).unwrap();
    let recovered = Wallet::recover_address(&msg, &sig).unwrap();
    assert_eq!(recovered.bytes, wallet.addr().bytes);
    // a different message recovers a different key
    let other = Wallet::recover_address(&hash(0x43), &sig).unwrap();
    assert_ne!(other.bytes, wallet.addr().bytes);
}

#[test]
fn address_is_the_keccak_tail_of_the_key() {
    let wallet = Wallet::random();
    let msg = hash(1);
    let sig = wallet.sign(&msg).unwrap();
    // recover the key independently and derive the address by hand
    let m = secp256k1::Message::from_slice(&msg.bytes).unwrap();
    let rid = secp256k1::ecdsa::RecoveryId::from_i32(sig[64] as i32).unwrap();
    let rs = secp256k1::ecdsa::RecoverableSignature::from_compact(&sig[..64], rid).unwrap();
    let pk = secp256k1::Secp256k1::new().recover_ecdsa(&m, &rs).unwrap();
    let ser = pk.serialize_uncompressed();
    let digest = sha3::Keccak256::digest(&ser[1..]);
    assert_eq!(pk_address(&ser.to_vec()).bytes, digest[12..].to_vec());
}

#[test]
fn log_lines_spell_direction_and_amount() {
    let line = gen_log(FlowDirection::ActiveAdd, &Uint256 { lo: 0x2a, hi: 0 });
    let mut expected = String::from("active add ");
    expected.push_str(&"0".repeat(62));
    expected.push_str("2a");
    assert_eq!(line, expected);
}
