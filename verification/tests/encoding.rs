use covalent::encode::{be_min_u256, be_min_u64, hex_of, le8_bytes, rlp_encode_str, rlp_encode_u64};
use covalent::hashes::TokenHasher;
use covalent::primitives::{Addr, Hash256, Uint256};
use covalent::token_types::{
    Account, RawTransaction, TokenAction, TokenBalance, TransactionRequest, encode_account,
    encode_balance, encode_raw_tx, gen_resp,
};
use covalent::u64_le_bytes;

fn addr(b: u8) -> Addr {
    Addr { bytes: vec![b; 20] }
}

fn hash(b: u8) -> Hash256 {
    Hash256 { bytes: vec![b; 32] }
}

#[test]
fn le_bytes_of_a_number() {
    assert_eq!(u64_le_bytes(0x0102030405060708), vec![8, 7, 6, 5, 4, 3, 2, 1]);
    assert_eq!(le8_bytes(1), vec![1, 0, 0, 0, 0, 0, 0, 0]);
}

#[test]
fn minimal_big_endian() {
    assert_eq!(be_min_u64(0), Vec::<u8>::new());
    assert_eq!(be_min_u64(1), vec![1]);
    assert_eq!(be_min_u64(0x1234), vec![0x12, 0x34]);
    let n = Uint256 { lo: 0x0100, hi: 1 };
    let be = be_min_u256(&n);
    assert_eq!(be.len(), 17);
    assert_eq!(be[0], 1);
    assert_eq!(be[15], 1);
    assert_eq!(be[16], 0);
}

#[test]
fn rlp_forms_match_the_reference_encoder() {
    // the reference recursive-length-prefixed encoder agrees byte for byte
    assert_eq!(rlp_encode_u64(0), rlp::encode(&0u64).to_vec());
    assert_eq!(rlp_encode_u64(15), rlp::encode(&15u64).to_vec());
    assert_eq!(rlp_encode_u64(1024), rlp::encode(&1024u64).to_vec());
    let payload = vec![0xabu8; 60];
    assert_eq!(rlp_encode_str(&payload), rlp::encode(&payload.as_slice()).to_vec());
    let short = vec![0x7fu8];
    assert_eq!(rlp_encode_str(&short), vec![0x7f]);
}

#[test]
fn account_and_balance_wire_forms() {
    let b = TokenBalance { locked: Uint256 { lo: 2, hi: 0 }, active: Uint256 { lo: 3, hi: 0 } };
    // a two-item list of one-byte numbers
    assert_eq!(encode_balance(&b), vec![0xc2, 0x02, 0x03]);
    let a = Account { address: addr(0x11), balance_root: hash(0x22) };
    let enc = encode_account(&a);
    assert_eq!(enc[0], 0xc0 + 21 + 33);
    assert_eq!(enc[1], 0x80 + 20);
    assert_eq!(&enc[2..22], &[0x11u8; 20][..]);
    assert_eq!(enc[22], 0x80 + 32);
}

#[test]
fn transaction_hash_is_blake3_of_its_wire_form() {
    let raw = RawTransaction {
        chain_id: 1,
        cycles_price: 1,
        cycles_limit: 10,
        nonce: hash(0),
        requests: vec![TransactionRequest {
            address: addr(1),
            token_id: hash(0xff),
            amount: Uint256 { lo: 100, hi: 0 },
            action: TokenAction::Mint,
            to: None,
        }],
        timeout: 0,
        sender: addr(1),
    };
    let enc = encode_raw_tx(&raw);
    let expected = blake3::hash(&enc);
    let got = TokenHasher::digest_(&enc);
    assert_eq!(got.bytes.as_slice(), expected.as_bytes());
}

#[test]
fn success_payload_spells_the_hash() {
    let h = hash(0xab);
    let payload = gen_resp(&h);
    // long-form string: prefix, length, then the text
    let text: Vec<u8> = payload[2..].to_vec();
    let mut expected = b"tx 0x".to_vec();
    expected.extend_from_slice("ab".repeat(32).as_bytes());
    expected.extend_from_slice(b" success");
    assert_eq!(text, expected);
}

#[test]
fn hex_of_bytes() {
    assert_eq!(hex_of(&vec![0x00, 0x1a, 0xff]), b"001aff".to_vec());
}

#[test]
fn uint256_arithmetic() {
    let a = Uint256 { lo: u128::MAX, hi: 0 };
    let b = Uint256 { lo: 1, hi: 0 };
    let s = a.checked_add(&b).unwrap();
    assert_eq!(s.lo, 0);
    assert_eq!(s.hi, 1);
    let d = s.checked_sub(&b).unwrap();
    assert_eq!(d.lo, u128::MAX);
    assert_eq!(d.hi, 0);
    assert!(b.lt(&a));
    assert!(s.checked_sub(&Uint256 { lo: 0, hi: 2 }).is_none());
    let max = Uint256 { lo: u128::MAX, hi: u128::MAX };
    assert!(max.checked_add(&b).is_none());
}
