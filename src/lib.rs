pub mod encoding;
pub mod laws;
pub mod modular;

use std::collections::VecDeque;

use vstd::arithmetic::div_mod::*;
use vstd::arithmetic::power::*;
use vstd::math::max;
use vstd::prelude::*;

use crate::encoding::{
    hash_of, lemma_base_inverse, lemma_poly_prepend, lemma_poly_push, lemma_pushed_all_back, poly,
    popped_back, popped_front, pushed_all_back, BASE, BIG_PRIME,
};
use crate::modular::{inverse_of, Modular};

verus! {

/// A residue modulo the hash's prime.
pub type Numeric = Modular<BIG_PRIME>;

/// A double-ended rolling hash over a window of bytes.
///
/// The hash of the window is kept equal to `hash_of` of its bytes through
/// every push and pop at either end; `BASE^k` is cached for every `k` up to
/// the window's length.
pub struct RollingHash {
    current_bytes: VecDeque<u8>,
    current_hash: Numeric,
    base_powers: Vec<Numeric>,
}

impl Default for RollingHash {
    fn default() -> (r: Self)
        ensures
            r.wf(),
            r@ == Seq::<u8>::empty(),
    {
        Self::new()
    }
}

impl RollingHash {
    /// The bytes of the window, front first.
    pub closed spec fn view(&self) -> Seq<u8> {
        self.current_bytes@
    }

    /// The hash the window currently holds.
    pub closed spec fn hash(&self) -> nat {
        self.current_hash@
    }

    /// The number of cached powers `BASE^0, BASE^1, ...`.
    pub closed spec fn powers_len(&self) -> nat {
        self.base_powers@.len()
    }

    /// In a well-formed window the held hash is the hash of its bytes.
    pub proof fn lemma_hash_of_window(&self)
        requires
            self.wf(),
        ensures
            self.hash() == hash_of(self@),
    {
    }

    /// Every cached power is `BASE^k mod BIG_PRIME`, and there is at least one.
    spec fn powers_ok(&self) -> bool {
        &&& self.base_powers@.len() >= 1
        &&& forall|k: int|
            0 <= k < self.base_powers@.len() ==> #[trigger] self.base_powers@[k]@ == pow(
                BASE as int,
                k as nat,
            ) % (BIG_PRIME as int)
    }

    /// The hash matches the window, and the power table reaches `BASE^len`.
    pub closed spec fn wf(&self) -> bool {
        &&& self.powers_ok()
        &&& self.base_powers@.len() > self.current_bytes@.len()
        &&& self.current_hash@ == hash_of(self.current_bytes@)
    }

    /// An empty window, whose hash is zero.
    pub fn new() -> (r: Self)
        ensures
            r.wf(),
            r@ == Seq::<u8>::empty(),
            r.powers_len() == 1,
    {
        let mut base_powers: Vec<Numeric> = Vec::new();
        base_powers.push(Modular::from_u64(1));
        let r = RollingHash {
            current_bytes: VecDeque::new(),
            current_hash: Modular::from_u64(0),
            base_powers,
        };
        proof {
            lemma_pow0(BASE as int);
            assert(r.base_powers@[0]@ == pow(BASE as int, 0) % (BIG_PRIME as int));
        }
        r
    }

    /// A window holding `input`, built by appending each byte at the back in order.
    pub fn from_initial_bytes(input: &[u8]) -> (r: Self)
        ensures
            r.wf(),
            r@ == input@,
            r@ == pushed_all_back(Seq::<u8>::empty(), input@),
            r.powers_len() == input@.len() + 1,
    {
        let mut rh = Self::new();
        let mut i: usize = 0;
        while i < input.len()
            invariant
                0 <= i <= input@.len(),
                rh.wf(),
                rh@ == input@.subrange(0, i as int),
                rh.powers_len() == i + 1,
            decreases input@.len() - i,
        {
            rh.push_back(input[i]);
            i = i + 1;
            assert(rh@ =~= input@.subrange(0, i as int));
        }
        assert(rh@ =~= input@);
        proof {
            lemma_pushed_all_back(Seq::<u8>::empty(), input@);
            assert(Seq::<u8>::empty() + input@ =~= input@);
        }
        rh
    }

    /// The bytes of the window, front first.
    pub fn get_current_bytes(&self) -> (r: Vec<u8>)
        ensures
            r@ == self@,
    {
        let mut bytes: Vec<u8> = Vec::new();
        let mut i: usize = 0;
        while i < self.current_bytes.len()
            invariant
                0 <= i <= self.current_bytes@.len(),
                bytes@ == self.current_bytes@.subrange(0, i as int),
            decreases self.current_bytes@.len() - i,
        {
            bytes.push(self.current_bytes[i]);
            i = i + 1;
            assert(bytes@ =~= self.current_bytes@.subrange(0, i as int));
        }
        assert(bytes@ =~= self.current_bytes@);
        bytes
    }

    /// Appends `b` at the back: `hash := hash * BASE + b`.
    pub fn push_back(&mut self, b: u8)
        requires
            old(self).wf(),
        ensures
            final(self).wf(),
            final(self)@ == old(self)@.push(b),
            final(self).powers_len() == max(old(self).powers_len() as int, final(self)@.len() as int + 1),
    {
        let ghost s = self.current_bytes@;
        self.current_bytes.push_back(b);

        self.current_hash = self.current_hash.mul_u64(BASE);
        self.current_hash = self.current_hash.add_u64(b as u64);
        proof {
            let m = BIG_PRIME as int;
            lemma_poly_push(s, b);
            lemma_mul_mod_noop_left(poly(s), BASE as int, m);
            lemma_add_mod_noop(poly(s) * BASE, b as int, m);
            lemma_mod_twice(poly(s) * BASE, m);
            lemma_small_mod(b as nat, m as nat);
        }

        // The table must now reach BASE^len for the new length.
        self.update_base_powers();
    }

    /// Extends the power table until it holds `BASE^len` for the window's
    /// length. Existing entries are kept; nothing is added beyond `BASE^len`.
    fn update_base_powers(&mut self)
        requires
            old(self).powers_ok(),
        ensures
            final(self).powers_ok(),
            final(self).base_powers@.len() == max(
                old(self).base_powers@.len() as int,
                old(self).current_bytes@.len() as int + 1,
            ),
            final(self).base_powers@.subrange(0, old(self).base_powers@.len() as int)
                == old(self).base_powers@,
            final(self).current_bytes@ == old(self).current_bytes@,
            final(self).current_hash == old(self).current_hash,
    {
        while self.base_powers.len() <= self.current_bytes.len()
            invariant
                self.powers_ok(),
                self.current_bytes@ == old(self).current_bytes@,
                self.current_hash == old(self).current_hash,
                old(self).base_powers@.len() <= self.base_powers@.len(),
                self.base_powers@.len() == old(self).base_powers@.len() || self.base_powers@.len()
                    <= self.current_bytes@.len() + 1,
                self.base_powers@.subrange(0, old(self).base_powers@.len() as int)
                    == old(self).base_powers@,
            decreases self.current_bytes@.len() + 1 - self.base_powers@.len(),
        {
            // The table starts with one value and never shrinks.
            let last_power = self.base_powers[self.base_powers.len() - 1];
            let next_power = last_power.mul_u64(BASE);
            let ghost prev = self.base_powers@;
            let ghost k = prev.len() as int;
            self.base_powers.push(next_power);
            proof {
                let m = BIG_PRIME as int;
                reveal(pow);
                assert(pow(BASE as int, k as nat) == BASE * pow(BASE as int, (k - 1) as nat));
                lemma_mul_mod_noop_left(pow(BASE as int, (k - 1) as nat), BASE as int, m);
                vstd::arithmetic::mul::lemma_mul_is_commutative(
                    pow(BASE as int, (k - 1) as nat),
                    BASE as int,
                );
                assert(self.base_powers@[k]@ == pow(BASE as int, k as nat) % m);
                assert forall|j: int| 0 <= j < self.base_powers@.len() implies #[trigger] self.base_powers@[j]@
                    == pow(BASE as int, j as nat) % m by {
                    if j < k {
                        assert(self.base_powers@[j] == prev[j]);
                    }
                }
                assert(self.base_powers@.subrange(0, old(self).base_powers@.len() as int)
                    =~= prev.subrange(0, old(self).base_powers@.len() as int));
            }
        }
    }

    /// Removes the front byte, if any: `hash := hash - front * BASE^(len-1)`.
    /// On an empty window nothing changes.
    pub fn pop_front(&mut self)
        requires
            old(self).wf(),
        ensures
            final(self).wf(),
            final(self)@ == popped_front(old(self)@),
            final(self).powers_len() == old(self).powers_len(),
    {
        let len = self.current_bytes.len();
        if len > 0 {
            let ghost s = self.current_bytes@;
            let front_byte = self.current_bytes[0];
            // The table always reaches BASE^len, so BASE^(len-1) is there.
            let factor = self.base_powers[len - 1];
            let contribution = factor.mul_u64(front_byte as u64);
            self.current_hash = self.current_hash.sub(contribution);
            self.current_bytes.pop_front();
            proof {
                let m = BIG_PRIME as int;
                let w = pow(BASE as int, (len - 1) as nat);
                assert(self.current_bytes@ =~= s.drop_first());
                assert(poly(s) == front_byte * w + poly(s.drop_first()));
                lemma_mul_mod_noop_left(w, front_byte as int, m);
                vstd::arithmetic::mul::lemma_mul_is_commutative(w, front_byte as int);
                lemma_sub_mod_noop(poly(s), w * front_byte, m);
            }
        }
    }

    /// Removes the back byte, if any: `hash := (hash - back) / BASE`.
    /// On an empty window nothing changes.
    pub fn pop_back(&mut self)
        requires
            old(self).wf(),
        ensures
            final(self).wf(),
            final(self)@ == popped_back(old(self)@),
            final(self).powers_len() == old(self).powers_len(),
    {
        let len = self.current_bytes.len();
        if len > 0 {
            let ghost s = self.current_bytes@;
            let back_byte = self.current_bytes[len - 1];
            // The back byte carries weight BASE^0 = 1.
            self.current_hash = self.current_hash.sub_u64(back_byte as u64);
            let ghost shifted = self.current_hash@;
            // Every remaining term moves down one power of BASE.
            self.current_hash = self.current_hash.div_u64(BASE);
            self.current_bytes.pop_back();
            proof {
                let m = BIG_PRIME as int;
                let rest = s.drop_last();
                let p = poly(rest);
                let inv = inverse_of(BASE as int, m);
                assert(self.current_bytes@ =~= rest);
                assert(rest.push(back_byte) =~= s);
                lemma_poly_push(rest, back_byte);
                lemma_small_mod(back_byte as nat, m as nat);
                lemma_sub_mod_noop(poly(s), back_byte as int, m);
                assert(shifted == (p * BASE) % m);
                lemma_mul_mod_noop_left(p * BASE, inv, m);
                vstd::arithmetic::mul::lemma_mul_is_associative(p, BASE as int, inv);
                lemma_mul_mod_noop_right(p, BASE * inv, m);
                lemma_base_inverse();
            }
        }
    }

    /// Prepends `b` at the front: `hash := hash + b * BASE^len`.
    pub fn push_front(&mut self, b: u8)
        requires
            old(self).wf(),
        ensures
            final(self).wf(),
            final(self)@ == seq![b] + old(self)@,
            final(self).powers_len() == max(old(self).powers_len() as int, final(self)@.len() as int + 1),
    {
        let ghost s = self.current_bytes@;
        let len = self.current_bytes.len();
        // Both operations that lengthen the window keep BASE^len in the table.
        let factor = self.base_powers[len];
        let contribution = factor.mul_u64(b as u64);
        self.current_hash = self.current_hash.add(contribution);
        self.current_bytes.push_front(b);
        proof {
            let m = BIG_PRIME as int;
            let w = pow(BASE as int, len as nat);
            lemma_poly_prepend(b, s);
            lemma_mul_mod_noop_left(w, b as int, m);
            vstd::arithmetic::mul::lemma_mul_is_commutative(w, b as int);
            lemma_add_mod_noop(poly(s), w * b, m);
        }

        // The table must now reach BASE^len for the new length.
        self.update_base_powers();
    }

    /// The hash of the window.
    pub fn get_current_hash(&self) -> (r: u64)
        requires
            self.wf(),
        ensures
            r == self.hash(),
            r == hash_of(self@),
    {
        self.current_hash.value()
    }
}

} // verus!
