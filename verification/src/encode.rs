use vstd::prelude::*;
use crate::primitives::Uint256;

verus! {

/// 256 to the power `k`.
pub open spec fn pow256(k: nat) -> nat
    decreases k,
{
    if k == 0 {
        1
    } else {
        256 * pow256((k - 1) as nat)
    }
}


pub proof fn lemma_pow256_8()
    ensures
        pow256(8) == 0x10000000000000000,
{
    reveal_with_fuel(pow256, 9);
}

pub proof fn lemma_pow256_16()
    ensures
        pow256(16) == 0x100000000000000000000000000000000,
{
    reveal_with_fuel(pow256, 17);
}

pub proof fn lemma_pow256_32()
    ensures
        pow256(32) == 0x10000000000000000000000000000000000000000000000000000000000000000,
{
    reveal_with_fuel(pow256, 33);
}

/// Minimal big-endian byte form of a number: no leading zero, zero itself is
/// the empty string.
pub open spec fn be_min(n: nat) -> Seq<u8>
    decreases n,
{
    if n == 0 {
        Seq::empty()
    } else {
        be_min(n / 256).push((n % 256) as u8)
    }
}

pub proof fn lemma_be_min_len(n: nat, k: nat)
    requires
        n < pow256(k),
    ensures
        be_min(n).len() <= k,
    decreases n,
{
    if n > 0 {
        assert(k > 0);
        assert(n / 256 < pow256((k - 1) as nat)) by (nonlinear_arith)
            requires
                n < pow256(k),
                pow256(k) == 256 * pow256((k - 1) as nat),
                n > 0,
        ;
        lemma_be_min_len(n / 256, (k - 1) as nat);
    }
}

/// The little-endian bytes of a 64-bit number.
pub open spec fn le8(x: u64) -> Seq<u8> {
    Seq::new(8, |i: int| ((x >> (8 * i) as u64) & 0xff) as u8)
}

/// The little-endian bytes of a 128-bit number.
pub open spec fn le16(x: u128) -> Seq<u8> {
    Seq::new(16, |i: int| ((x >> (8 * i) as u128) & 0xff) as u8)
}

pub fn le8_bytes(x: u64) -> (r: Vec<u8>)
    ensures
        r@ == le8(x),
{
    let mut buf: Vec<u8> = Vec::new();
    let mut i: u64 = 0;
    while i < 8
        invariant
            i <= 8,
            buf@.len() == i,
            forall|j: int| 0 <= j < i ==> buf@[j] == le8(x)[j],
        decreases 8 - i,
    {
        buf.push(((x >> (8 * i)) & 0xff) as u8);
        i = i + 1;
    }
    proof {
        assert(buf@ =~= le8(x));
    }
    buf
}

pub fn le16_bytes(x: u128) -> (r: Vec<u8>)
    ensures
        r@ == le16(x),
{
    let mut buf: Vec<u8> = Vec::new();
    let mut i: u64 = 0;
    while i < 16
        invariant
            i <= 16,
            buf@.len() == i,
            forall|j: int| 0 <= j < i ==> buf@[j] == le16(x)[j],
        decreases 16 - i,
    {
        buf.push(((x >> (8 * i) as u128) & 0xff) as u8);
        i = i + 1;
    }
    proof {
        assert(buf@ =~= le16(x));
    }
    buf
}

/// Minimal big-endian bytes of a 64-bit number.
pub fn be_min_u64(x: u64) -> (r: Vec<u8>)
    ensures
        r@ == be_min(x as nat),
        r@.len() <= 8,
    decreases x,
{
    if x == 0 {
        Vec::new()
    } else {
        let mut r = be_min_u64(x / 256);
        r.push((x % 256) as u8);
        proof {
            lemma_pow256_8();
            lemma_be_min_len(x as nat, 8);
        }
        r
    }
}

/// Minimal big-endian bytes of a 128-bit number.
pub fn be_min_u128(x: u128) -> (r: Vec<u8>)
    ensures
        r@ == be_min(x as nat),
        r@.len() <= 16,
    decreases x,
{
    if x == 0 {
        Vec::new()
    } else {
        let mut r = be_min_u128(x / 256);
        r.push((x % 256) as u8);
        proof {
            lemma_pow256_16();
            lemma_be_min_len(x as nat, 16);
        }
        r
    }
}

/// Minimal big-endian bytes of a 256-bit number.
pub fn be_min_u256(x: &Uint256) -> (r: Vec<u8>)
    ensures
        r@ == be_min(x.val()),
        r@.len() <= 32,
    decreases x.val(),
{
    if x.hi == 0 {
        be_min_u128(x.lo)
    } else {
        // Divide the 256-bit number by 256: shift one byte across the limbs.
        let q = Uint256 { lo: x.lo / 256 + (x.hi % 256) * 0x1000000000000000000000000000000u128, hi: x.hi / 256 };
        let digit: u8 = (x.lo % 256) as u8;
        proof {
            assert(q.val() == x.val() / 256 && digit == x.val() % 256 && q.val() < x.val())
                by (nonlinear_arith)
                requires
                    x.hi > 0,
                    q.lo == x.lo / 256 + (x.hi % 256) * 0x1000000000000000000000000000000u128,
                    q.hi == x.hi / 256,
                    digit == x.lo % 256,
                    q.val() == q.hi * 0x100000000000000000000000000000000 + q.lo,
                    x.val() == x.hi * 0x100000000000000000000000000000000 + x.lo,
                    x.lo <= u128::MAX,
                    x.hi <= u128::MAX,
            ;
        }
        let mut r = be_min_u256(&q);
        r.push(digit);
        proof {
            lemma_pow256_32();
            lemma_be_min_len(x.val(), 32);
            assert(r@ =~= be_min(x.val()));
        }
        r
    }
}

/// The recursive-length-prefixed form of a byte string.
pub open spec fn rlp_str(payload: Seq<u8>) -> Seq<u8> {
    if payload.len() == 1 && payload[0] < 0x80 {
        payload
    } else if payload.len() <= 55 {
        seq![(0x80 + payload.len()) as u8] + payload
    } else {
        seq![(0xb7 + be_min(payload.len() as nat).len()) as u8] + be_min(payload.len() as nat)
            + payload
    }
}

/// The recursive-length-prefixed form of a list, given the concatenation of
/// its items' encodings.
pub open spec fn rlp_list(payload: Seq<u8>) -> Seq<u8> {
    if payload.len() <= 55 {
        seq![(0xc0 + payload.len()) as u8] + payload
    } else {
        seq![(0xf7 + be_min(payload.len() as nat).len()) as u8] + be_min(payload.len() as nat)
            + payload
    }
}

/// The recursive-length-prefixed form of an unsigned number: its minimal
/// big-endian bytes as a string.
pub open spec fn rlp_uint(n: nat) -> Seq<u8> {
    rlp_str(be_min(n))
}

pub fn rlp_encode_str(payload: &Vec<u8>) -> (r: Vec<u8>)
    ensures
        r@ == rlp_str(payload@),
{
    if payload.len() == 1 && payload[0] < 0x80 {
        crate::primitives::clone_bytes(payload)
    } else if payload.len() <= 55 {
        let mut out: Vec<u8> = Vec::new();
        out.push((0x80 + payload.len() as u8) as u8);
        out.extend_from_slice(payload.as_slice());
        proof {
            assert(out@ =~= rlp_str(payload@));
        }
        out
    } else {
        let len_bytes = be_min_u64(payload.len() as u64);
        let mut out: Vec<u8> = Vec::new();
        out.push(0xb7 + len_bytes.len() as u8);
        out.extend_from_slice(len_bytes.as_slice());
        out.extend_from_slice(payload.as_slice());
        proof {
            assert(out@ =~= rlp_str(payload@));
        }
        out
    }
}

pub fn rlp_encode_list(payload: &Vec<u8>) -> (r: Vec<u8>)
    ensures
        r@ == rlp_list(payload@),
{
    if payload.len() <= 55 {
        let mut out: Vec<u8> = Vec::new();
        out.push((0xc0 + payload.len() as u8) as u8);
        out.extend_from_slice(payload.as_slice());
        proof {
            assert(out@ =~= rlp_list(payload@));
        }
        out
    } else {
        let len_bytes = be_min_u64(payload.len() as u64);
        let mut out: Vec<u8> = Vec::new();
        out.push(0xf7 + len_bytes.len() as u8);
        out.extend_from_slice(len_bytes.as_slice());
        out.extend_from_slice(payload.as_slice());
        proof {
            assert(out@ =~= rlp_list(payload@));
        }
        out
    }
}

pub fn rlp_encode_u64(x: u64) -> (r: Vec<u8>)
    ensures
        r@ == rlp_uint(x as nat),
{
    let payload = be_min_u64(x);
    rlp_encode_str(&payload)
}

pub fn rlp_encode_u128(x: u128) -> (r: Vec<u8>)
    ensures
        r@ == rlp_uint(x as nat),
{
    let payload = be_min_u128(x);
    rlp_encode_str(&payload)
}

pub fn rlp_encode_u256(x: &Uint256) -> (r: Vec<u8>)
    ensures
        r@ == rlp_uint(x.val()),
{
    let payload = be_min_u256(x);
    rlp_encode_str(&payload)
}

/// Append `src` to `out`.
pub fn push_all(out: &mut Vec<u8>, src: &Vec<u8>)
    ensures
        final(out)@ == old(out)@ + src@,
{
    out.extend_from_slice(src.as_slice());
    proof {
        assert(out@ =~= old(out)@ + src@);
    }
}

/// The characters an ASCII byte string decodes to.
pub open spec fn ascii_chars(bytes: Seq<u8>) -> Seq<char> {
    Seq::new(bytes.len(), |i: int| bytes[i] as char)
}

/// Relies on String::from_utf8: bytes below 0x80 decode to exactly one ASCII
/// character each.
#[verifier::external_body]
pub(crate) fn ascii_string(bytes: &Vec<u8>) -> (r: String)
    requires
        forall|i: int| 0 <= i < bytes@.len() ==> bytes@[i] < 0x80,
    ensures
        r@ == ascii_chars(bytes@),
{
    String::from_utf8(bytes.clone()).unwrap_or_default()
}

/// The lower-case hex digit of a value below 16, as a byte.
pub open spec fn hex_digit(v: u8) -> u8 {
    if v < 10 {
        (0x30 + v) as u8
    } else {
        (0x57 + v) as u8
    }
}

/// The lower-case hex form of a byte string, two digits per byte.
pub open spec fn hex_bytes(bytes: Seq<u8>) -> Seq<u8>
    decreases bytes.len(),
{
    if bytes.len() == 0 {
        Seq::empty()
    } else {
        hex_bytes(bytes.drop_last()) + seq![
            hex_digit(bytes.last() / 16),
            hex_digit(bytes.last() % 16),
        ]
    }
}

pub fn hex_of(bytes: &Vec<u8>) -> (r: Vec<u8>)
    ensures
        r@ == hex_bytes(bytes@),
        r@.len() == 2 * bytes@.len(),
{
    let mut out: Vec<u8> = Vec::new();
    let mut i: usize = 0;
    while i < bytes.len()
        invariant
            i <= bytes@.len(),
            out@ == hex_bytes(bytes@.subrange(0, i as int)),
            out@.len() == 2 * i,
        decreases bytes@.len() - i,
    {
        let b = bytes[i];
        let hi = b / 16;
        let lo = b % 16;
        out.push(if hi < 10 { 0x30 + hi } else { 0x57 + hi });
        out.push(if lo < 10 { 0x30 + lo } else { 0x57 + lo });
        proof {
            let s = bytes@.subrange(0, i + 1 as int);
            assert(s.drop_last() =~= bytes@.subrange(0, i as int));
            assert(s.last() == bytes@[i as int]);
            assert(out@ =~= hex_bytes(s));
        }
        i = i + 1;
    }
    proof {
        assert(bytes@.subrange(0, bytes@.len() as int) =~= bytes@);
    }
    out
}

pub proof fn lemma_hex_bytes_ascii(bytes: Seq<u8>)
    ensures
        forall|i: int| 0 <= i < hex_bytes(bytes).len() ==> hex_bytes(bytes)[i] < 0x80,
        hex_bytes(bytes).len() == 2 * bytes.len(),
    decreases bytes.len(),
{
    if bytes.len() > 0 {
        lemma_hex_bytes_ascii(bytes.drop_last());
    }
}

} // verus!
