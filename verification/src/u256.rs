use vstd::bytes::{
    spec_u128_from_le_bytes, spec_u128_to_le_bytes, u128_from_le_bytes, u128_to_le_bytes,
    lemma_auto_spec_u128_to_from_le_bytes,
};
use vstd::prelude::*;

verus! {

/// An unsigned 256-bit integer, the EVM's word size for balances and
/// nonces, held as a low and a high 128-bit limb.
#[derive(Clone, Copy, Debug, PartialEq, Eq, Structural)]
pub struct U256 {
    pub lo: u128,
    pub hi: u128,
}

/// The first integer that does not fit in 256 bits.
pub open spec fn u256_bound() -> int {
    0x1_0000_0000_0000_0000_0000_0000_0000_0000_0000_0000_0000_0000_0000_0000_0000_0000int
}

impl U256 {
    /// The mathematical value of this word.
    pub open spec fn as_nat(self) -> nat {
        (self.lo + self.hi * 0x1_0000_0000_0000_0000_0000_0000_0000_0000int) as nat
    }

    pub open spec fn spec_zero() -> U256 {
        U256 { lo: 0, hi: 0 }
    }

    pub fn zero() -> (r: U256)
        ensures
            r == U256::spec_zero(),
            r.as_nat() == 0,
    {
        U256 { lo: 0, hi: 0 }
    }

    pub fn from_u128(v: u128) -> (r: U256)
        ensures
            r.as_nat() == v,
    {
        U256 { lo: v, hi: 0 }
    }

    /// Sum of two words, or `None` when the sum does not fit in 256 bits.
    pub fn checked_add(self, other: U256) -> (r: Option<U256>)
        ensures
            match r {
                Some(s) => s.as_nat() == self.as_nat() + other.as_nat(),
                None => self.as_nat() + other.as_nat() >= u256_bound(),
            },
    {
        let lo = self.lo.wrapping_add(other.lo);
        let carry: u128 = if lo < self.lo {
            1
        } else {
            0
        };
        match self.hi.checked_add(other.hi) {
            Some(h) => match h.checked_add(carry) {
                Some(hi) => Some(U256 { lo, hi }),
                None => None,
            },
            None => None,
        }
    }

    /// Difference of two words, or `None` when `other` exceeds `self`.
    pub fn checked_sub(self, other: U256) -> (r: Option<U256>)
        ensures
            match r {
                Some(d) => {
                    &&& self.as_nat() >= other.as_nat()
                    &&& d.as_nat() == self.as_nat() - other.as_nat()
                },
                None => self.as_nat() < other.as_nat(),
            },
    {
        let lo = self.lo.wrapping_sub(other.lo);
        let borrow: u128 = if self.lo < other.lo {
            1
        } else {
            0
        };
        match self.hi.checked_sub(other.hi) {
            Some(h) => match h.checked_sub(borrow) {
                Some(hi) => Some(U256 { lo, hi }),
                None => None,
            },
            None => None,
        }
    }

    /// Strict order on the values.
    pub fn lt(self, other: U256) -> (r: bool)
        ensures
            r == (self.as_nat() < other.as_nat()),
    {
        if self.hi < other.hi {
            proof {
                assert(self.as_nat() < other.as_nat()) by (nonlinear_arith)
                    requires
                        self.hi < other.hi,
                        self.lo < 0x1_0000_0000_0000_0000_0000_0000_0000_0000int,
                ;
            }
            true
        } else if self.hi == other.hi {
            self.lo < other.lo
        } else {
            proof {
                assert(other.as_nat() < self.as_nat()) by (nonlinear_arith)
                    requires
                        other.hi < self.hi,
                        other.lo < 0x1_0000_0000_0000_0000_0000_0000_0000_0000int,
                ;
            }
            false
        }
    }

    /// Canonical big-endian 32-byte representation of the value.
    pub open spec fn spec_be_bytes(self) -> Seq<u8> {
        spec_u128_to_le_bytes(self.hi).reverse() + spec_u128_to_le_bytes(self.lo).reverse()
    }

    pub fn to_be_bytes(self) -> (r: Vec<u8>)
        ensures
            r@ == self.spec_be_bytes(),
            r@.len() == 32,
    {
        proof {
            lemma_auto_spec_u128_to_from_le_bytes();
        }
        let hi_le = u128_to_le_bytes(self.hi);
        let lo_le = u128_to_le_bytes(self.lo);
        let mut r: Vec<u8> = Vec::new();
        let mut i: usize = 16;
        while i > 0
            invariant
                hi_le@ == spec_u128_to_le_bytes(self.hi),
                hi_le@.len() == 16,
                i <= 16,
                r@ =~= spec_u128_to_le_bytes(self.hi).reverse().take(16 - i),
            decreases i,
        {
            i = i - 1;
            r.push(hi_le[i]);
            proof {
                assert(r@ =~= spec_u128_to_le_bytes(self.hi).reverse().take(16 - i));
            }
        }
        let mut j: usize = 16;
        while j > 0
            invariant
                lo_le@ == spec_u128_to_le_bytes(self.lo),
                lo_le@.len() == 16,
                j <= 16,
                r@ =~= spec_u128_to_le_bytes(self.hi).reverse() + spec_u128_to_le_bytes(
                    self.lo,
                ).reverse().take(16 - j),
            decreases j,
        {
            j = j - 1;
            r.push(lo_le[j]);
            proof {
                assert(r@ =~= spec_u128_to_le_bytes(self.hi).reverse() + spec_u128_to_le_bytes(
                    self.lo,
                ).reverse().take(16 - j));
            }
        }
        proof {
            assert(r@ =~= self.spec_be_bytes());
        }
        r
    }

    /// The 32-byte little-endian representation: low limb first.
    pub open spec fn spec_le_bytes(self) -> Seq<u8> {
        spec_u128_to_le_bytes(self.lo) + spec_u128_to_le_bytes(self.hi)
    }

    pub fn to_le_bytes(self) -> (r: Vec<u8>)
        ensures
            r@ == self.spec_le_bytes(),
            r@.len() == 32,
    {
        proof {
            lemma_auto_spec_u128_to_from_le_bytes();
        }
        let mut r = u128_to_le_bytes(self.lo);
        let mut hi_le = u128_to_le_bytes(self.hi);
        r.append(&mut hi_le);
        r
    }

    /// The value whose 32-byte little-endian representation is `s`.
    pub open spec fn spec_from_le_bytes(s: Seq<u8>) -> U256 {
        U256 {
            lo: spec_u128_from_le_bytes(s.subrange(0, 16)),
            hi: spec_u128_from_le_bytes(s.subrange(16, 32)),
        }
    }

    /// Reads the 32-byte little-endian representation back.
    pub fn from_le_bytes(s: &[u8]) -> (r: U256)
        requires
            s@.len() == 32,
        ensures
            r.spec_le_bytes() == s@,
            r == U256::spec_from_le_bytes(s@),
    {
        proof {
            lemma_auto_spec_u128_to_from_le_bytes();
        }
        let lo_part = vstd::slice::slice_subrange(s, 0, 16);
        let hi_part = vstd::slice::slice_subrange(s, 16, 32);
        let lo = u128_from_le_bytes(lo_part);
        let hi = u128_from_le_bytes(hi_part);
        let r = U256 { lo, hi };
        proof {
            assert(r.spec_le_bytes() =~= s@);
            assert(lo_part@ =~= s@.subrange(0, 16));
            assert(hi_part@ =~= s@.subrange(16, 32));
        }
        r
    }
}

/// Going to little-endian bytes and back returns the value.
pub proof fn lemma_le_bytes_round_trip(x: U256)
    ensures
        x.spec_le_bytes().len() == 32,
        U256::spec_from_le_bytes(x.spec_le_bytes()) == x,
{
    lemma_auto_spec_u128_to_from_le_bytes();
    assert(x.spec_le_bytes().subrange(0, 16) =~= spec_u128_to_le_bytes(x.lo));
    assert(x.spec_le_bytes().subrange(16, 32) =~= spec_u128_to_le_bytes(x.hi));
}

/// The word whose value is `n`, for `0 <= n < 2^256`.
pub open spec fn u256_of(n: int) -> U256 {
    U256 {
        lo: (n % 0x1_0000_0000_0000_0000_0000_0000_0000_0000int) as u128,
        hi: (n / 0x1_0000_0000_0000_0000_0000_0000_0000_0000int) as u128,
    }
}

/// Splitting a word's value back into limbs returns the word.
pub proof fn lemma_u256_of_as_nat(a: U256)
    ensures
        u256_of(a.as_nat() as int) == a,
{
    let p = 0x1_0000_0000_0000_0000_0000_0000_0000_0000int;
    assert((a.lo + a.hi * p) % p == a.lo && (a.lo + a.hi * p) / p == a.hi) by (nonlinear_arith)
        requires
            0 <= a.lo < p,
            0 <= a.hi,
    ;
}

/// A value below the bound is represented exactly.
pub proof fn lemma_as_nat_of_u256_of(n: int)
    requires
        0 <= n < u256_bound(),
    ensures
        u256_of(n).as_nat() == n,
{
    let p = 0x1_0000_0000_0000_0000_0000_0000_0000_0000int;
    vstd::arithmetic::div_mod::lemma_fundamental_div_mod(n, p);
    vstd::arithmetic::div_mod::lemma_mod_bound(n, p);
    vstd::arithmetic::div_mod::lemma_div_pos_is_pos(n, p);
    vstd::arithmetic::div_mod::lemma_multiply_divide_lt(n, p, p);
}

} // verus!
