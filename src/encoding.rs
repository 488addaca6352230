use vstd::arithmetic::div_mod::*;
use vstd::arithmetic::power::*;
use vstd::prelude::*;

use crate::modular::inverse_of;

verus! {

/// The prime modulus of the rolling hash.
pub const BIG_PRIME: u64 = 1_000_000_007;

/// The multiplier of the positional encoding.
pub const BASE: u64 = 257;

/// The positional polynomial of a window, front element first:
/// `s[0] * BASE^(n-1) + s[1] * BASE^(n-2) + ... + s[n-1]`.
pub open spec fn poly(s: Seq<u8>) -> int
    decreases s.len(),
{
    if s.len() == 0 {
        0
    } else {
        s[0] * pow(BASE as int, (s.len() - 1) as nat) + poly(s.drop_first())
    }
}

/// The hash of a window: its polynomial reduced modulo `BIG_PRIME`.
pub open spec fn hash_of(s: Seq<u8>) -> nat {
    (poly(s) % (BIG_PRIME as int)) as nat
}

/// Appending `x` at the back shifts every term up one power of `BASE`.
pub proof fn lemma_poly_push(s: Seq<u8>, x: u8)
    ensures
        poly(s.push(x)) == poly(s) * BASE + x,
    decreases s.len(),
{
    let t = s.push(x);
    if s.len() == 0 {
        lemma_pow0(BASE as int);
        assert(t.drop_first() =~= Seq::<u8>::empty());
        assert(t.len() == 1 && t[0] == x);
        assert(poly(t) == x * pow(BASE as int, 0) + poly(t.drop_first()));
    } else {
        let n = s.len();
        assert(t.drop_first() =~= s.drop_first().push(x));
        lemma_poly_push(s.drop_first(), x);
        reveal(pow);
        assert(pow(BASE as int, n) == BASE * pow(BASE as int, (n - 1) as nat));
        assert(poly(t) == s[0] * pow(BASE as int, n) + poly(s.drop_first()) * BASE + x);
        assert(s[0] * pow(BASE as int, n) == s[0] * pow(BASE as int, (n - 1) as nat) * BASE)
            by (nonlinear_arith)
            requires
                pow(BASE as int, n) == BASE * pow(BASE as int, (n - 1) as nat),
        ;
        assert((s[0] * pow(BASE as int, (n - 1) as nat) + poly(s.drop_first())) * BASE
            == s[0] * pow(BASE as int, (n - 1) as nat) * BASE + poly(s.drop_first()) * BASE)
            by (nonlinear_arith);
    }
}

/// Prepending `x` adds one term carrying the highest power of `BASE`.
pub proof fn lemma_poly_prepend(x: u8, s: Seq<u8>)
    ensures
        poly(seq![x] + s) == x * pow(BASE as int, s.len()) + poly(s),
{
    let t = seq![x] + s;
    assert(t.drop_first() =~= s);
    assert(t[0] == x);
}

/// The window after removing its front element; an empty window stays empty.
pub open spec fn popped_front(s: Seq<u8>) -> Seq<u8> {
    if s.len() == 0 {
        s
    } else {
        s.drop_first()
    }
}

/// The window after removing its back element; an empty window stays empty.
pub open spec fn popped_back(s: Seq<u8>) -> Seq<u8> {
    if s.len() == 0 {
        s
    } else {
        s.drop_last()
    }
}

/// The window after appending each element of `t` at the back, in order.
pub open spec fn pushed_all_back(s: Seq<u8>, t: Seq<u8>) -> Seq<u8>
    decreases t.len(),
{
    if t.len() == 0 {
        s
    } else {
        pushed_all_back(s.push(t[0]), t.drop_first())
    }
}

/// Appending elements one at a time at the back is appending them all at once.
pub proof fn lemma_pushed_all_back(s: Seq<u8>, t: Seq<u8>)
    ensures
        pushed_all_back(s, t) == s + t,
    decreases t.len(),
{
    if t.len() == 0 {
        assert(s + t =~= s);
    } else {
        lemma_pushed_all_back(s.push(t[0]), t.drop_first());
        assert(s.push(t[0]) + t.drop_first() =~= s + t);
    }
}

/// `b^e mod m` as binary exponentiation computes it, from the lowest bit of `e`.
pub open spec fn pow_mod_by_squaring(b: int, e: nat, m: int) -> int
    decreases e,
{
    if e == 0 {
        1int % m
    } else {
        let rest = pow_mod_by_squaring((b * b) % m, e / 2, m);
        if e % 2 == 1 {
            (b * rest) % m
        } else {
            rest
        }
    }
}

/// Binary exponentiation computes the power.
pub proof fn lemma_pow_mod_by_squaring(b: int, e: nat, m: int)
    requires
        m > 0,
    ensures
        pow_mod_by_squaring(b, e, m) == pow(b, e) % m,
    decreases e,
{
    if e == 0 {
        lemma_pow0(b);
    } else {
        let bb = (b * b) % m;
        lemma_pow_mod_by_squaring(bb, e / 2, m);
        crate::modular::lemma_pow_halving(b, e, m);
        lemma_mul_mod_noop_right(pow(b, e % 2), pow(bb, e / 2), m);
        if e % 2 == 1 {
            lemma_pow1(b);
        } else {
            lemma_pow0(b);
            lemma_mod_twice(pow(bb, e / 2), m);
        }
    }
}

/// Multiplying by `BASE` and by the inverse that division uses gives one.
#[verifier::spinoff_prover]
pub proof fn lemma_base_inverse()
    ensures
        (BASE * inverse_of(BASE as int, BIG_PRIME as int)) % (BIG_PRIME as int) == 1,
{
    let m = BIG_PRIME as int;
    lemma_pow_mod_by_squaring(BASE as int, (m - 2) as nat, m);
    // Each squaring step below is evaluated on concrete values.
    assert(pow_mod_by_squaring(883456491, 0, m) == 1);
    assert(pow_mod_by_squaring(103574683, 1, m) == 103574683);
    assert(pow_mod_by_squaring(140169591, 3, m) == 852438513);
    assert(pow_mod_by_squaring(186404494, 7, m) == 569588846);
    assert(pow_mod_by_squaring(647691554, 14, m) == 569588846);
    assert(pow_mod_by_squaring(160706023, 29, m) == 545064959);
    assert(pow_mod_by_squaring(336512704, 59, m) == 924790169);
    assert(pow_mod_by_squaring(525020397, 119, m) == 271341207);
    assert(pow_mod_by_squaring(576428881, 238, m) == 271341207);
    assert(pow_mod_by_squaring(894967547, 476, m) == 271341207);
    assert(pow_mod_by_squaring(397986594, 953, m) == 29847824);
    assert(pow_mod_by_squaring(2103663, 1907, m) == 762539789);
    assert(pow_mod_by_squaring(93640451, 3814, m) == 762539789);
    assert(pow_mod_by_squaring(657861598, 7629, m) == 618603342);
    assert(pow_mod_by_squaring(958765329, 15258, m) == 618603342);
    assert(pow_mod_by_squaring(170727037, 30517, m) == 918671456);
    assert(pow_mod_by_squaring(54051838, 61035, m) == 367344968);
    assert(pow_mod_by_squaring(890340269, 122070, m) == 367344968);
    assert(pow_mod_by_squaring(996348447, 244140, m) == 367344968);
    assert(pow_mod_by_squaring(640313666, 488281, m) == 500220681);
    assert(pow_mod_by_squaring(550251117, 976562, m) == 500220681);
    assert(pow_mod_by_squaring(69219344, 1953125, m) == 151678635);
    assert(pow_mod_by_squaring(350260630, 3906250, m) == 151678635);
    assert(pow_mod_by_squaring(698877962, 7812500, m) == 151678635);
    assert(pow_mod_by_squaring(15344631, 15625000, m) == 151678635);
    assert(pow_mod_by_squaring(673170304, 31250000, m) == 151678635);
    assert(pow_mod_by_squaring(368440608, 62500000, m) == 151678635);
    assert(pow_mod_by_squaring(383065739, 125000000, m) == 151678635);
    assert(pow_mod_by_squaring(362470373, 250000001, m) == 19727778);
    assert(pow_mod_by_squaring(66049, 500000002, m) == 19727778);
    assert(pow_mod_by_squaring(257, 1000000005, m) == 70038911);
}

} // verus!
