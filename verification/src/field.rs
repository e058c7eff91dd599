//! The scalar ("field element") abstraction the factorizations run over, and a
//! verified exact instance: integers modulo a prime.

use vstd::prelude::*;

verus! {

/// A field element: a real or complex scalar with the operations the pivoting,
/// elimination and solve logic needs.
///
/// Every executable operation is pinned to its own specification function, so
/// the factorization contracts can state, entry by entry, which value each
/// output holds. `score` is the real-valued magnitude used only for pivot
/// comparison: larger score means better pivot, and ties are broken by first
/// occurrence.
pub trait Field: Sized + Copy {
    spec fn spec_zero() -> Self;

    spec fn spec_one() -> Self;

    spec fn spec_add(a: Self, b: Self) -> Self;

    spec fn spec_sub(a: Self, b: Self) -> Self;

    spec fn spec_mul(a: Self, b: Self) -> Self;

    spec fn spec_neg(a: Self) -> Self;

    /// The multiplicative inverse. What it yields on a zero divisor is the
    /// instance's business (a factorization with an exactly zero pivot simply
    /// produces a singular upper factor, not an error).
    spec fn spec_inv(a: Self) -> Self;

    spec fn spec_conj(a: Self) -> Self;

    /// The pivot-selection magnitude (absolute value, or squared modulus for
    /// complex scalars): monotonic in magnitude, compared as a plain integer.
    spec fn spec_score(a: Self) -> u64;

    fn zero() -> (r: Self)
        ensures
            r == Self::spec_zero(),
    ;

    fn one() -> (r: Self)
        ensures
            r == Self::spec_one(),
    ;

    fn add(self, o: Self) -> (r: Self)
        ensures
            r == Self::spec_add(self, o),
    ;

    fn sub(self, o: Self) -> (r: Self)
        ensures
            r == Self::spec_sub(self, o),
    ;

    fn mul(self, o: Self) -> (r: Self)
        ensures
            r == Self::spec_mul(self, o),
    ;

    fn neg(self) -> (r: Self)
        ensures
            r == Self::spec_neg(self),
    ;

    fn inv(self) -> (r: Self)
        ensures
            r == Self::spec_inv(self),
    ;

    fn conj(self) -> (r: Self)
        ensures
            r == Self::spec_conj(self),
    ;

    fn score(self) -> (r: u64)
        ensures
            r == Self::spec_score(self),
    ;

    /// Zero annihilates products and is fixed by subtraction from itself: the
    /// facts needed to show that an all-zero matrix stays all-zero through an
    /// elimination.
    proof fn lemma_zero_absorbs(x: Self)
        ensures
            Self::spec_mul(Self::spec_zero(), x) == Self::spec_zero(),
            Self::spec_mul(x, Self::spec_zero()) == Self::spec_zero(),
            Self::spec_sub(Self::spec_zero(), Self::spec_zero()) == Self::spec_zero(),
    ;
}

/// The modulus of [`Fp`]: a prime, so that every nonzero residue is invertible.
pub const FP_MODULUS: u64 = 65537;

/// `b^k` modulo [`FP_MODULUS`].
pub open spec fn fp_pow(b: u64, k: nat) -> u64
    decreases k,
{
    if k == 0 {
        1u64
    } else {
        ((fp_pow(b, (k - 1) as nat) * b) % 65537) as u64
    }
}

/// An integer modulo the prime [`FP_MODULUS`]: an exact field instance, so the
/// factorization and solve algorithms can be exercised with exact arithmetic.
///
/// Operations reduce their operands first, so every `u64` is a valid
/// representative. The inverse is computed by Fermat's little theorem; the
/// inverse of zero is zero.
#[derive(Clone, Copy, Debug, PartialEq, Eq, Structural)]
pub struct Fp {
    pub v: u64,
}

impl Field for Fp {
    open spec fn spec_zero() -> Fp {
        Fp { v: 0 }
    }

    open spec fn spec_one() -> Fp {
        Fp { v: 1 }
    }

    open spec fn spec_add(a: Fp, b: Fp) -> Fp {
        Fp { v: (((a.v % 65537) + (b.v % 65537)) % 65537) as u64 }
    }

    open spec fn spec_sub(a: Fp, b: Fp) -> Fp {
        Fp::spec_add(a, Fp::spec_neg(b))
    }

    open spec fn spec_mul(a: Fp, b: Fp) -> Fp {
        Fp { v: (((a.v % 65537) * (b.v % 65537)) % 65537) as u64 }
    }

    open spec fn spec_neg(a: Fp) -> Fp {
        Fp { v: ((65537 - (a.v % 65537)) % 65537) as u64 }
    }

    open spec fn spec_inv(a: Fp) -> Fp {
        Fp { v: fp_pow(a.v % 65537, 65535) }
    }

    open spec fn spec_conj(a: Fp) -> Fp {
        a
    }

    open spec fn spec_score(a: Fp) -> u64 {
        a.v % 65537
    }

    fn zero() -> (r: Fp) {
        Fp { v: 0 }
    }

    fn one() -> (r: Fp) {
        Fp { v: 1 }
    }

    fn add(self, o: Fp) -> (r: Fp) {
        Fp { v: (self.v % 65537 + o.v % 65537) % 65537 }
    }

    fn sub(self, o: Fp) -> (r: Fp) {
        self.add(o.neg())
    }

    fn mul(self, o: Fp) -> (r: Fp) {
        let a: u64 = self.v % 65537;
        let b: u64 = o.v % 65537;
        proof {
            assert(a * b <= 65536u64 * 65536u64) by (nonlinear_arith)
                requires
                    a <= 65536,
                    b <= 65536,
            ;
        }
        Fp { v: (a * b) % 65537 }
    }

    fn neg(self) -> (r: Fp) {
        Fp { v: (65537 - self.v % 65537) % 65537 }
    }

    fn inv(self) -> (r: Fp) {
        let b: u64 = self.v % 65537;
        let mut acc: u64 = 1;
        let mut i: u64 = 0;
        while i < 65535
            invariant
                i <= 65535,
                acc == fp_pow(b, i as nat),
                acc < 65537,
                b < 65537,
            decreases 65535 - i,
        {
            proof {
                assert(acc * b <= 65536u64 * 65536u64) by (nonlinear_arith)
                    requires
                        acc <= 65536,
                        b <= 65536,
                ;
            }
            acc = (acc * b) % 65537;
            i += 1;
        }
        Fp { v: acc }
    }

    fn conj(self) -> (r: Fp) {
        self
    }

    fn score(self) -> (r: u64) {
        self.v % 65537
    }

    proof fn lemma_zero_absorbs(x: Fp) {
        assert(Fp::spec_mul(Fp { v: 0 }, x).v == 0) by {
            assert((0u64 % 65537) == 0);
        }
        assert(Fp::spec_mul(x, Fp { v: 0 }).v == 0) by {
            assert(((x.v % 65537) * 0) == 0);
        }
    }
}

impl Fp {
    /// The canonical residue of this element.
    pub fn residue(self) -> (r: u64)
        ensures
            r == Fp::spec_score(self),
    {
        self.v % 65537
    }

    /// The element with residue `v % FP_MODULUS`.
    pub fn new(v: u64) -> (r: Fp)
        ensures
            r == (Fp { v: (v % 65537) as u64 }),
    {
        Fp { v: v % 65537 }
    }
}

} // verus!
