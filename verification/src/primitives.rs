use vstd::prelude::*;

verus! {

/// A 32-byte digest or identifier, the fixed hash width of both tiers.
pub struct Hash256 {
    pub bytes: Vec<u8>,
}

impl View for Hash256 {
    type V = Seq<u8>;

    open spec fn view(&self) -> Seq<u8> {
        self.bytes@
    }
}

impl Hash256 {
    /// Well-formed: exactly 32 bytes.
    pub open spec fn wf(&self) -> bool {
        self.bytes@.len() == 32
    }

    pub open spec fn is_zero_spec(&self) -> bool {
        forall|i: int| 0 <= i < self.bytes@.len() ==> self.bytes@[i] == 0u8
    }

    pub fn zero() -> (r: Hash256)
        ensures
            r.wf(),
            r.is_zero_spec(),
    {
        let mut bytes: Vec<u8> = Vec::new();
        let mut i: usize = 0;
        while i < 32
            invariant
                i <= 32,
                bytes@.len() == i,
                forall|j: int| 0 <= j < i ==> bytes@[j] == 0u8,
            decreases 32 - i,
        {
            bytes.push(0u8);
            i = i + 1;
        }
        Hash256 { bytes }
    }

    pub fn from_bytes(bytes: Vec<u8>) -> (r: Hash256)
        requires
            bytes@.len() == 32,
        ensures
            r.wf(),
            r@ == bytes@,
    {
        Hash256 { bytes }
    }

    pub fn is_zero(&self) -> (r: bool)
        requires
            self.wf(),
        ensures
            r == self.is_zero_spec(),
    {
        let mut i: usize = 0;
        while i < self.bytes.len()
            invariant
                self.wf(),
                i <= self.bytes@.len(),
                forall|j: int| 0 <= j < i ==> self.bytes@[j] == 0u8,
            decreases self.bytes@.len() - i,
        {
            if self.bytes[i] != 0u8 {
                return false;
            }
            i = i + 1;
        }
        true
    }
}

impl Clone for Hash256 {
    fn clone(&self) -> (r: Self)
        ensures
            r@ == self@,
    {
        Hash256 { bytes: clone_bytes(&self.bytes) }
    }
}

impl PartialEq for Hash256 {
    fn eq(&self, other: &Self) -> (r: bool) {
        bytes_eq(&self.bytes, &other.bytes)
    }
}

impl vstd::std_specs::cmp::PartialEqSpecImpl for Hash256 {
    open spec fn obeys_eq_spec() -> bool {
        true
    }

    open spec fn eq_spec(&self, other: &Self) -> bool {
        self.bytes@ == other.bytes@
    }
}

/// A 20-byte account address.
pub struct Addr {
    pub bytes: Vec<u8>,
}

impl View for Addr {
    type V = Seq<u8>;

    open spec fn view(&self) -> Seq<u8> {
        self.bytes@
    }
}

impl Addr {
    /// Well-formed: exactly 20 bytes.
    pub open spec fn wf(&self) -> bool {
        self.bytes@.len() == 20
    }

    pub fn from_bytes(bytes: Vec<u8>) -> (r: Addr)
        requires
            bytes@.len() == 20,
        ensures
            r.wf(),
            r@ == bytes@,
    {
        Addr { bytes }
    }
}

impl Clone for Addr {
    fn clone(&self) -> (r: Self)
        ensures
            r@ == self@,
    {
        Addr { bytes: clone_bytes(&self.bytes) }
    }
}

impl PartialEq for Addr {
    fn eq(&self, other: &Self) -> (r: bool) {
        bytes_eq(&self.bytes, &other.bytes)
    }
}

impl vstd::std_specs::cmp::PartialEqSpecImpl for Addr {
    open spec fn obeys_eq_spec() -> bool {
        true
    }

    open spec fn eq_spec(&self, other: &Self) -> bool {
        self.bytes@ == other.bytes@
    }
}

/// Byte-wise equality of two vectors.
pub fn bytes_eq(a: &Vec<u8>, b: &Vec<u8>) -> (r: bool)
    ensures
        r <==> a@ == b@,
{
    if a.len() != b.len() {
        proof {
            assert(a@.len() != b@.len());
        }
        return false;
    }
    let mut i: usize = 0;
    while i < a.len()
        invariant
            a@.len() == b@.len(),
            i <= a@.len(),
            forall|j: int| 0 <= j < i ==> a@[j] == b@[j],
        decreases a@.len() - i,
    {
        if a[i] != b[i] {
            return false;
        }
        i = i + 1;
    }
    proof {
        assert(a@ =~= b@);
    }
    true
}

/// Copy of a byte vector.
pub fn clone_bytes(a: &Vec<u8>) -> (r: Vec<u8>)
    ensures
        r@ == a@,
{
    let mut out: Vec<u8> = Vec::new();
    let mut i: usize = 0;
    while i < a.len()
        invariant
            i <= a@.len(),
            out@ == a@.subrange(0, i as int),
        decreases a@.len() - i,
    {
        out.push(a[i]);
        proof {
            assert(out@ =~= a@.subrange(0, i + 1 as int));
        }
        i = i + 1;
    }
    proof {
        assert(a@.subrange(0, a@.len() as int) =~= a@);
    }
    out
}

/// A 256-bit unsigned quantity: token amounts, balances, channel identifiers.
#[derive(Clone, Copy, PartialEq, Eq, Structural, Debug)]
pub struct Uint256 {
    pub lo: u128,
    pub hi: u128,
}

impl Uint256 {
    /// The number this pair of limbs denotes.
    pub open spec fn val(&self) -> nat {
        (self.hi * 0x100000000000000000000000000000000 + self.lo) as nat
    }

    pub fn zero() -> (r: Uint256)
        ensures
            r.val() == 0,
    {
        Uint256 { lo: 0, hi: 0 }
    }

    pub fn from_u128(x: u128) -> (r: Uint256)
        ensures
            r.val() == x,
    {
        Uint256 { lo: x, hi: 0 }
    }

    pub fn from_u64(x: u64) -> (r: Uint256)
        ensures
            r.val() == x,
    {
        Uint256 { lo: x as u128, hi: 0 }
    }

    pub fn is_zero(&self) -> (r: bool)
        ensures
            r <==> self.val() == 0,
    {
        self.lo == 0 && self.hi == 0
    }

    /// Sum, or `None` when the sum does not fit in 256 bits.
    pub fn checked_add(&self, other: &Uint256) -> (r: Option<Uint256>)
        ensures
            match r {
                Some(s) => s.val() == self.val() + other.val(),
                None => self.val() + other.val()
                    >= 0x10000000000000000000000000000000000000000000000000000000000000000nat,
            },
    {
        let (lo, carry): (u128, u128) = if self.lo <= u128::MAX - other.lo {
            (self.lo + other.lo, 0)
        } else {
            (((self.lo - (u128::MAX - other.lo)) - 1), 1)
        };
        if self.hi <= u128::MAX - carry && self.hi + carry <= u128::MAX - other.hi {
            let hi = self.hi + carry + other.hi;
            let s = Uint256 { lo, hi };
            proof {
                assert(s.val() == self.val() + other.val()) by (nonlinear_arith)
                    requires
                        s.lo == lo,
                        s.hi == hi,
                        lo + carry * 0x100000000000000000000000000000000nat == self.lo
                            + other.lo,
                        hi == self.hi + carry + other.hi,
                        s.val() == s.hi * 0x100000000000000000000000000000000nat + s.lo,
                        self.val() == self.hi * 0x100000000000000000000000000000000nat + self.lo,
                        other.val() == other.hi * 0x100000000000000000000000000000000nat
                            + other.lo,
                ;
            }
            Some(s)
        } else {
            proof {
                assert(self.val() + other.val()
                    >= 0x10000000000000000000000000000000000000000000000000000000000000000nat)
                    by (nonlinear_arith)
                    requires
                        lo + carry * 0x100000000000000000000000000000000nat == self.lo
                            + other.lo,
                        carry == 0 || carry == 1,
                        self.hi + carry + other.hi > u128::MAX,
                        self.val() == self.hi * 0x100000000000000000000000000000000nat + self.lo,
                        other.val() == other.hi * 0x100000000000000000000000000000000nat
                            + other.lo,
                ;
            }
            None
        }
    }

    /// Difference, or `None` when `other` exceeds `self`.
    pub fn checked_sub(&self, other: &Uint256) -> (r: Option<Uint256>)
        ensures
            match r {
                Some(d) => d.val() == self.val() - other.val(),
                None => self.val() < other.val(),
            },
    {
        let (lo, borrow): (u128, u128) = if self.lo >= other.lo {
            (self.lo - other.lo, 0)
        } else {
            ((u128::MAX - (other.lo - self.lo)) + 1, 1)
        };
        if self.hi >= borrow && self.hi - borrow >= other.hi {
            let hi = (self.hi - borrow) - other.hi;
            let d = Uint256 { lo, hi };
            proof {
                assert(d.val() == self.val() - other.val()) by (nonlinear_arith)
                    requires
                        d.lo == lo,
                        d.hi == hi,
                        lo == self.lo - other.lo + borrow
                            * 0x100000000000000000000000000000000nat,
                        hi == self.hi - borrow - other.hi,
                        d.val() == d.hi * 0x100000000000000000000000000000000nat + d.lo,
                        self.val() == self.hi * 0x100000000000000000000000000000000nat + self.lo,
                        other.val() == other.hi * 0x100000000000000000000000000000000nat
                            + other.lo,
                ;
            }
            Some(d)
        } else {
            proof {
                assert(self.val() < other.val()) by (nonlinear_arith)
                    requires
                        lo == self.lo - other.lo + borrow
                            * 0x100000000000000000000000000000000nat,
                        0 <= lo <= u128::MAX,
                        borrow == 0 || borrow == 1,
                        self.hi < borrow + other.hi,
                        self.val() == self.hi * 0x100000000000000000000000000000000nat + self.lo,
                        other.val() == other.hi * 0x100000000000000000000000000000000nat
                            + other.lo,
                ;
            }
            None
        }
    }

    /// Strict order on the denoted numbers.
    pub fn lt(&self, other: &Uint256) -> (r: bool)
        ensures
            r <==> self.val() < other.val(),
    {
        let r = if self.hi != other.hi {
            self.hi < other.hi
        } else {
            self.lo < other.lo
        };
        proof {
            assert(r <==> self.val() < other.val()) by (nonlinear_arith)
                requires
                    r == if self.hi != other.hi {
                        self.hi < other.hi
                    } else {
                        self.lo < other.lo
                    },
                    self.val() == self.hi * 0x100000000000000000000000000000000nat + self.lo,
                    other.val() == other.hi * 0x100000000000000000000000000000000nat + other.lo,
                    self.lo <= u128::MAX,
                    other.lo <= u128::MAX,
            ;
        }
        r
    }

    /// Two limb pairs denoting the same number are the same pair.
    pub proof fn lemma_unique(a: Uint256, b: Uint256)
        requires
            a.val() == b.val(),
        ensures
            a == b,
    {
        assert(a.lo == b.lo && a.hi == b.hi) by (nonlinear_arith)
            requires
                a.val() == b.val(),
                a.val() == a.hi * 0x100000000000000000000000000000000 + a.lo,
                b.val() == b.hi * 0x100000000000000000000000000000000 + b.lo,
                a.lo <= u128::MAX,
                b.lo <= u128::MAX,
                a.hi <= u128::MAX,
                b.hi <= u128::MAX,
        ;
    }

    /// The little-endian byte at position `i` of a 256-bit number.
    pub open spec fn le_byte(&self, i: int) -> u8 {
        if i < 16 {
            ((self.lo >> (8 * i) as u128) & 0xff) as u8
        } else {
            ((self.hi >> (8 * (i - 16)) as u128) & 0xff) as u8
        }
    }

    /// The 32 little-endian bytes of the number, the form the channel tier
    /// uses as a sparse-merkle-tree key.
    pub open spec fn le_bytes_spec(&self) -> Seq<u8> {
        Seq::new(32, |i: int| self.le_byte(i))
    }

    pub fn to_le_bytes(&self) -> (r: Vec<u8>)
        ensures
            r@ == self.le_bytes_spec(),
            r@.len() == 32,
    {
        let mut out: Vec<u8> = Vec::new();
        let mut i: usize = 0;
        while i < 16
            invariant
                i <= 16,
                out@.len() == i,
                forall|j: int| 0 <= j < i ==> out@[j] == self.le_byte(j),
            decreases 16 - i,
        {
            out.push(((self.lo >> (8 * i as u128)) & 0xff) as u8);
            i = i + 1;
        }
        let mut k: usize = 0;
        while k < 16
            invariant
                k <= 16,
                out@.len() == 16 + k,
                forall|j: int| 0 <= j < 16 + k ==> out@[j] == self.le_byte(j),
            decreases 16 - k,
        {
            out.push(((self.hi >> (8 * k as u128)) & 0xff) as u8);
            k = k + 1;
        }
        proof {
            assert(out@ =~= self.le_bytes_spec());
        }
        out
    }
}

} // verus!
