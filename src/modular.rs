use vstd::arithmetic::div_mod::*;
use vstd::arithmetic::mul::*;
use vstd::arithmetic::power::*;
use vstd::prelude::*;

verus! {

/// The largest modulus for which the product of two residues fits in a `u64`.
pub const MAX_MODULUS: u64 = 0x1_0000_0000;

/// A modulus is usable when it is positive and `(MOD - 1)^2` fits in a `u64`.
pub open spec fn valid_modulus(m: u64) -> bool {
    0 < m <= MAX_MODULUS
}

/// Two residues below a usable modulus multiply without leaving `u64`.
pub proof fn lemma_mul_below_modulus(a: u64, b: u64, m: u64)
    requires
        valid_modulus(m),
        a < m,
        b < m,
    ensures
        a * b <= u64::MAX,
{
    assert(a * b <= (m - 1) * (m - 1)) by (nonlinear_arith)
        requires
            a < m,
            b < m,
    ;
    assert((m - 1) * (m - 1) <= u64::MAX) by (nonlinear_arith)
        requires
            0 < m <= MAX_MODULUS,
    ;
}

/// The residue that Fermat's little theorem gives as the inverse of `x`
/// modulo a prime `m`: `x^(m - 2) mod m`.
pub open spec fn inverse_of(x: int, m: int) -> int {
    pow(x, (m - 2) as nat) % m
}

/// One step of binary exponentiation: `b^e` splits into the low bit of `e`
/// and the square of `b` raised to the remaining bits.
pub proof fn lemma_pow_halving(b: int, e: nat, m: int)
    requires
        m > 0,
    ensures
        pow(b, e) % m == (pow(b, e % 2) * pow((b * b) % m, e / 2)) % m,
{
    let q = e / 2;
    let r = e % 2;
    assert(e == 2 * q + r);
    lemma_pow_adds(b, 2 * q, r);
    lemma_pow_multiplies(b, 2, q);
    lemma_square_is_pow2(b);
    lemma_pow_mod_noop(b * b, q, m);
    lemma_mul_mod_noop_right(pow(b, r), pow((b * b) % m, q), m);
    lemma_mul_mod_noop_right(pow(b, r), pow(b * b, q), m);
    assert(pow(b, e) == pow(b, r) * pow(b * b, q)) by (nonlinear_arith)
        requires
            pow(b, 2 * q + r) == pow(b, 2 * q) * pow(b, r),
            pow(pow(b, 2), q) == pow(b, 2 * q),
            pow(b, 2) == b * b,
            e == 2 * q + r,
    ;
}

/// A residue modulo `MOD`, always kept in `[0, MOD)`.
#[derive(Debug, Clone, Copy, PartialEq, Eq, PartialOrd, Ord)]
pub struct Modular<const MOD: u64> {
    value: u64,
}

impl<const MOD: u64> Modular<MOD> {
    #[verifier::type_invariant]
    spec fn inv(self) -> bool {
        valid_modulus(MOD) && self.value < MOD
    }

    /// The residue as a natural number.
    pub closed spec fn view(self) -> nat {
        self.value as nat
    }

    /// Reduces `number` modulo `MOD`.
    pub fn from_u64(number: u64) -> (r: Self)
        requires
            valid_modulus(MOD),
        ensures
            r@ == number % MOD,
    {
        Modular { value: number % MOD }
    }

    /// The residue as a plain integer.
    pub fn value(&self) -> (r: u64)
        ensures
            r == self@,
            r < MOD,
    {
        proof {
            use_type_invariant(self);
        }
        self.value
    }

    /// `(self + rhs) mod MOD`.
    pub fn add(self, rhs: Self) -> (r: Self)
        ensures
            r@ == (self@ + rhs@) as int % (MOD as int),
    {
        proof {
            use_type_invariant(&self);
            use_type_invariant(&rhs);
        }
        Modular { value: (self.value + rhs.value) % MOD }
    }

    /// `(self - rhs) mod MOD`, computed without going below zero.
    pub fn sub(self, rhs: Self) -> (r: Self)
        ensures
            r@ == (self@ - rhs@) % (MOD as int),
    {
        proof {
            use_type_invariant(&self);
            use_type_invariant(&rhs);
        }
        let mut value = self.value;
        if rhs.value > self.value {
            value = value + MOD;
        }
        value = value - rhs.value;
        proof {
            let d = self@ - rhs@;
            if rhs@ > self@ {
                lemma_fundamental_div_mod_converse(d, MOD as int, -1, value as int);
            } else {
                lemma_small_mod(d as nat, MOD as nat);
            }
        }
        Modular { value }
    }

    /// `(self * rhs) mod MOD`.
    pub fn mul(self, rhs: Self) -> (r: Self)
        ensures
            r@ == (self@ * rhs@) as int % (MOD as int),
    {
        proof {
            use_type_invariant(&self);
            use_type_invariant(&rhs);
            lemma_mul_below_modulus(self.value, rhs.value, MOD);
        }
        Modular { value: (self.value * rhs.value) % MOD }
    }

    /// `base^exponent mod MOD`, by squaring `base` and scanning the bits of
    /// `exponent` from the least significant one.
    pub fn fast_exponentiation(base: u64, exponent: u64) -> (r: u64)
        requires
            valid_modulus(MOD),
        ensures
            r == pow(base as int, exponent as nat) % (MOD as int),
    {
        let mut b: u64 = base % MOD;
        let mut e: u64 = exponent;
        let mut result: u64 = 1 % MOD;
        proof {
            lemma_pow0(b as int);
            lemma_pow_mod_noop(base as int, exponent as nat, MOD as int);
            lemma_mul_mod_noop_left(1, pow(b as int, exponent as nat), MOD as int);
        }
        while e != 0
            invariant
                valid_modulus(MOD),
                b < MOD,
                result < MOD,
                (result * pow(b as int, e as nat)) % (MOD as int) == pow(base as int, exponent as nat)
                    % (MOD as int),
            decreases e,
        {
            let ghost old_b = b as int;
            let ghost old_e = e as nat;
            let ghost old_result = result as int;
            let low = e & 1;
            assert(low == e % 2) by (bit_vector)
                requires
                    low == e & 1,
            ;
            proof {
                lemma_mul_below_modulus(b, b, MOD);
                lemma_mul_below_modulus(result, b, MOD);
            }
            if low == 1 {
                result = result * b % MOD;
            }
            b = b * b % MOD;
            let next = e >> 1;
            assert(next == e / 2) by (bit_vector)
                requires
                    next == e >> 1,
            ;
            e = next;
            proof {
                let m = MOD as int;
                let p_low = pow(old_b, old_e % 2);
                let p_rest = pow(b as int, e as nat);
                lemma_pow_halving(old_b, old_e, m);
                if low == 1 {
                    lemma_pow1(old_b);
                } else {
                    lemma_pow0(old_b);
                    lemma_small_mod(old_result as nat, m as nat);
                }
                assert(result == (old_result * p_low) % m);
                lemma_mul_mod_noop_left(old_result * p_low, p_rest, m);
                lemma_mul_is_associative(old_result, p_low, p_rest);
                lemma_mul_mod_noop_right(old_result, p_low * p_rest, m);
                lemma_mul_mod_noop_right(old_result, pow(old_b, old_e), m);
            }
        }
        proof {
            lemma_pow0(b as int);
            lemma_small_mod(result as nat, MOD as nat);
        }
        result
    }

    /// The multiplicative inverse of `number` by Fermat's little theorem:
    /// `number^(MOD - 2) mod MOD`.
    pub fn find_modular_inverse(number: u64) -> (r: u64)
        requires
            valid_modulus(MOD),
            MOD >= 2,
        ensures
            r == inverse_of(number as int, MOD as int),
    {
        Self::fast_exponentiation(number, MOD - 2)
    }

    /// `self * rhs^(MOD - 2) mod MOD`, that is `self / rhs` when `MOD` is
    /// prime. Dividing by zero is the caller's error.
    pub fn div(self, rhs: Self) -> (r: Self)
        requires
            MOD >= 2,
            rhs@ != 0,
        ensures
            r@ == (self@ * inverse_of(rhs@ as int, MOD as int)) as int % (MOD as int),
    {
        proof {
            use_type_invariant(&self);
        }
        let inverse = Self::find_modular_inverse(rhs.value);
        self.mul(Modular { value: inverse })
    }

    /// `(self + rhs) mod MOD` for a plain integer `rhs`.
    pub fn add_u64(self, rhs: u64) -> (r: Self)
        ensures
            r@ == (self@ + rhs) as int % (MOD as int),
    {
        proof {
            use_type_invariant(&self);
            lemma_add_mod_noop_right(self@ as int, rhs as int, MOD as int);
        }
        self.add(Self::from_u64(rhs))
    }

    /// `(self - rhs) mod MOD` for a plain integer `rhs`.
    pub fn sub_u64(self, rhs: u64) -> (r: Self)
        ensures
            r@ == (self@ - rhs) % (MOD as int),
    {
        proof {
            use_type_invariant(&self);
            lemma_sub_mod_noop_right(self@ as int, rhs as int, MOD as int);
        }
        self.sub(Self::from_u64(rhs))
    }

    /// `(self * rhs) mod MOD` for a plain integer `rhs`.
    pub fn mul_u64(self, rhs: u64) -> (r: Self)
        ensures
            r@ == (self@ * rhs) as int % (MOD as int),
    {
        proof {
            use_type_invariant(&self);
            lemma_mul_mod_noop_right(self@ as int, rhs as int, MOD as int);
        }
        self.mul(Self::from_u64(rhs))
    }

    /// `self * rhs^(MOD - 2) mod MOD` for a plain integer `rhs`, that is
    /// `self / rhs` when `MOD` is prime. Dividing by a multiple of `MOD` is
    /// the caller's error.
    pub fn div_u64(self, rhs: u64) -> (r: Self)
        requires
            MOD >= 2,
            rhs % MOD != 0,
        ensures
            r@ == (self@ * inverse_of(rhs as int, MOD as int)) as int % (MOD as int),
    {
        proof {
            use_type_invariant(&self);
        }
        let inverse = Self::find_modular_inverse(rhs);
        self.mul(Modular { value: inverse })
    }
}

} // verus!
