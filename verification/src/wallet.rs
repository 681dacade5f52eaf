use vstd::prelude::*;
use crate::hashes::{keccak_bytes, keccak_of};
use crate::primitives::{Addr, Hash256, Uint256};
use crate::channel_types::{RawTransaction, SignedTransaction, encode_c_raw_tx, enc_c_raw_tx};

verus! {

/// The uncompressed public key ECDSA recovery answers for a 32-byte message,
/// a 64-byte compact signature and a recovery id; a function of its
/// arguments alone, absent when any part fails to parse or nothing recovers.
pub uninterp spec fn recovered_pk(msg: Seq<u8>, sig64: Seq<u8>, recid: u8) -> Option<Seq<u8>>;

/// The 65-byte recoverable signature deterministic ECDSA produces for a
/// 32-byte message and a 32-byte secret key (the nonce is derived from the
/// message and key, so the signature is a function of the two); absent when
/// either fails to parse.
pub uninterp spec fn signed_by(msg: Seq<u8>, sk: Seq<u8>) -> Option<Seq<u8>>;

/// The uncompressed public key of a secret key; a function of the key bytes,
/// absent when they do not name a valid key.
pub uninterp spec fn pk_of(sk: Seq<u8>) -> Option<Seq<u8>>;

/// Relies on secp256k1's recovery path (Message::from_slice,
/// RecoveryId::from_i32, RecoverableSignature::from_compact,
/// Secp256k1::recover_ecdsa, PublicKey::serialize_uncompressed): the
/// 65-byte uncompressed key recovered from message, compact signature and
/// recovery id.
#[verifier::external_body]
fn secp_recover(msg: &Vec<u8>, sig64: &Vec<u8>, recid: u8) -> (r: Option<Vec<u8>>)
    ensures
        (match r {
            Some(pk) => recovered_pk(msg@, sig64@, recid) == Some(pk@) && pk@.len() == 65,
            None => recovered_pk(msg@, sig64@, recid) is None,
        }),
{
    let m = secp256k1::Message::from_slice(msg.as_slice()).ok()?;
    let rid = secp256k1::ecdsa::RecoveryId::from_i32(recid as i32).ok()?;
    let rs = secp256k1::ecdsa::RecoverableSignature::from_compact(sig64.as_slice(), rid).ok()?;
    let pk = secp256k1::Secp256k1::new().recover_ecdsa(&m, &rs).ok()?;
    Some(pk.serialize_uncompressed().to_vec())
}

/// Relies on secp256k1::Secp256k1::sign_ecdsa_recoverable (with
/// Message::from_slice and SecretKey::from_slice): deterministic ECDSA over
/// the message with the key; 64 compact bytes followed by the recovery id.
#[verifier::external_body]
fn secp_sign(msg: &Vec<u8>, sk: &Vec<u8>) -> (r: Option<Vec<u8>>)
    ensures
        (match r {
            Some(s) => signed_by(msg@, sk@) == Some(s@) && s@.len() == 65,
            None => signed_by(msg@, sk@) is None,
        }),
{
    let m = secp256k1::Message::from_slice(msg.as_slice()).ok()?;
    let key = secp256k1::SecretKey::from_slice(sk.as_slice()).ok()?;
    let (rid, bytes) = secp256k1::Secp256k1::new().sign_ecdsa_recoverable(&m, &key)
        .serialize_compact();
    let mut buf = bytes.to_vec();
    buf.push(rid.to_i32() as u8);
    Some(buf)
}

/// Relies on secp256k1::generate_keypair over the operating system's
/// randomness: a fresh key pair; nothing is claimed of the values beyond
/// their widths and that they belong together.
#[verifier::external_body]
fn secp_keygen() -> (r: (Vec<u8>, Vec<u8>))
    ensures
        r.0@.len() == 32,
        r.1@.len() == 65,
        pk_of(r.0@) == Some(r.1@),
{
    let (sk, pk) = secp256k1::Secp256k1::new().generate_keypair(
        &mut secp256k1::rand::rngs::OsRng,
    );
    (sk.secret_bytes().to_vec(), pk.serialize_uncompressed().to_vec())
}

/// The recovery id byte of a 65-byte signature, with the legacy 27 and 28
/// mapped down to 0 and 1.
pub open spec fn rec_id_of(b: u8) -> u8 {
    if b == 27 {
        0
    } else if b == 28 {
        1
    } else {
        b
    }
}

/// The address a 65-byte recoverable signature recovers over a message: the
/// last 20 bytes of the Keccak digest of the recovered key without its tag
/// byte.
pub open spec fn recovered_addr(msg: Seq<u8>, sig: Seq<u8>) -> Option<Seq<u8>> {
    if sig.len() == 65 {
        match recovered_pk(msg, sig.subrange(0, 64), rec_id_of(sig[64])) {
            Some(pk) => Some(keccak_of(pk.subrange(1, 65)).subrange(12, 32)),
            None => None,
        }
    } else {
        None
    }
}

/// The address of an uncompressed public key.
pub open spec fn addr_of_pk(pk: Seq<u8>) -> Seq<u8> {
    keccak_of(pk.subrange(1, 65)).subrange(12, 32)
}

/// A copy of part of a byte string.
pub fn sub_bytes(v: &Vec<u8>, from: usize, to: usize) -> (r: Vec<u8>)
    requires
        from <= to <= v@.len(),
    ensures
        r@ == v@.subrange(from as int, to as int),
{
    let mut out: Vec<u8> = Vec::new();
    let mut i: usize = from;
    while i < to
        invariant
            from <= i <= to <= v@.len(),
            out@ == v@.subrange(from as int, i as int),
        decreases to - i,
    {
        out.push(v[i]);
        proof {
            assert(out@ =~= v@.subrange(from as int, i + 1 as int));
        }
        i = i + 1;
    }
    out
}

/// The address of a 65-byte uncompressed public key.
pub fn pk_address(pk: &Vec<u8>) -> (r: Addr)
    requires
        pk@.len() == 65,
    ensures
        r.wf(),
        r@ == addr_of_pk(pk@),
{
    let body = sub_bytes(pk, 1, 65);
    let digest = keccak_bytes(&body);
    let tail = sub_bytes(&digest, 12, 32);
    Addr::from_bytes(tail)
}

/// A key pair with its derived address, used by the relayer to sign
/// channel transactions.
pub struct Wallet {
    sk: Vec<u8>,
    pk: Vec<u8>,
    addr: Addr,
}

impl Wallet {
    /// The wallet's secret key bytes, for contracts.
    pub closed spec fn sk_spec(&self) -> Seq<u8> {
        self.sk@
    }

    pub closed spec fn wf(&self) -> bool {
        self.sk@.len() == 32 && self.pk@.len() == 65 && self.addr.wf() && self.addr@ == addr_of_pk(
            self.pk@,
        )
    }

    /// A wallet over a fresh random key pair.
    pub fn random() -> (r: Wallet)
        ensures
            r.wf(),
    {
        let (sk, pk) = secp_keygen();
        let addr = pk_address(&pk);
        Wallet { sk, pk, addr }
    }

    /// The wallet's address.
    pub fn addr(&self) -> (r: Addr)
        requires
            self.wf(),
        ensures
            r.wf(),
            r@ == self.addr_spec(),
    {
        self.addr.clone()
    }

    pub closed spec fn addr_spec(&self) -> Seq<u8> {
        self.addr@
    }

    /// Sign a 32-byte message with the wallet's key.
    pub fn sign(&self, msg: &Hash256) -> (r: Option<Vec<u8>>)
        requires
            self.wf(),
        ensures
            (match r {
                Some(s) => signed_by(msg@, self.sk_spec()) == Some(s@) && s@.len() == 65,
                None => signed_by(msg@, self.sk_spec()) is None,
            }),
    {
        secp_sign(&msg.bytes, &self.sk)
    }

    /// Sign a transaction body: hash it, sign the hash, and carry the
    /// wallet's address as the sender.
    pub fn sign_tx(&self, raw_tx: RawTransaction) -> (r: Option<SignedTransaction>)
        requires
            self.wf(),
        ensures
            (match r {
                Some(stx) => {
                    &&& stx.hash@ == crate::hashes::blake2b_of(enc_c_raw_tx(stx.raw))
                    &&& crate::channel_types::raw_ctx_eq(stx.raw, raw_tx)
                    &&& stx.from@ == self.addr_spec()
                    &&& signed_by(stx.hash@, self.sk_spec()) == Some(stx.sig@)
                },
                None => signed_by(
                    crate::hashes::blake2b_of(enc_c_raw_tx(raw_tx)),
                    self.sk_spec(),
                ) is None,
            }),
    {
        let bytes = encode_c_raw_tx(&raw_tx);
        let tx_hash = crate::hashes::blake2b_hash(&bytes);
        let sig = match secp_sign(&tx_hash.bytes, &self.sk) {
            Some(s) => s,
            None => {
                return None;
            },
        };
        proof {
            crate::channel_types::lemma_raw_ctx_eq_refl(raw_tx);
        }
        Some(SignedTransaction { raw: raw_tx, sig, from: self.addr.clone(), hash: tx_hash })
    }

    /// The address that signed a 32-byte message, recovered from a 65-byte
    /// signature.
    pub fn recover_address(msg: &Hash256, sig: &Vec<u8>) -> (r: Option<Addr>)
        ensures
            (match r {
                Some(a) => a.wf() && recovered_addr(msg@, sig@) == Some(a@),
                None => recovered_addr(msg@, sig@) is None,
            }),
    {
        if sig.len() != 65 {
            return None;
        }
        let sig64 = sub_bytes(sig, 0, 64);
        let rec_byte = sig[64];
        let recid: u8 = if rec_byte == 27 {
            0
        } else if rec_byte == 28 {
            1
        } else {
            rec_byte
        };
        match secp_recover(&msg.bytes, &sig64, recid) {
            Some(pk) => Some(pk_address(&pk)),
            None => None,
        }
    }
}

/// Conversion into a 32-byte value, as the channel tier keys its tree.
pub trait H256Ext {
    /// The 32 bytes the value converts to.
    spec fn h256_bytes(&self) -> Seq<u8>;

    fn to_h256(&self) -> (r: Hash256)
        ensures
            r.wf(),
            r@ == self.h256_bytes(),
    ;
}

impl H256Ext for Uint256 {
    /// The number's 32 little-endian bytes.
    open spec fn h256_bytes(&self) -> Seq<u8> {
        self.le_bytes_spec()
    }

    fn to_h256(&self) -> (r: Hash256) {
        Hash256::from_bytes(self.to_le_bytes())
    }
}

} // verus!
