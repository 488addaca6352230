use rolling_hash::modular::Modular;

#[test]
fn add_modular() {
    let lhs = Modular::<25>::from_u64(10);
    let rhs = Modular::<25>::from_u64(20);
    assert_eq!(lhs.add(rhs).value(), 5);
}

#[test]
fn add_u64() {
    let lhs = Modular::<25>::from_u64(10);
    let rhs: u64 = 20;
    assert_eq!(lhs.add_u64(rhs).value(), 5);
}

#[test]
fn multiply_modular() {
    let lhs = Modular::<25>::from_u64(5);
    let rhs = Modular::<25>::from_u64(6);
    assert_eq!(lhs.mul(rhs).value(), 5);
}

#[test]
fn multiply_u64() {
    let lhs = Modular::<25>::from_u64(5);
    let rhs: u64 = 6;
    assert_eq!(lhs.mul_u64(rhs).value(), 5);
}

#[test]
fn subtract_modular() {
    let lhs = Modular::<25>::from_u64(10);
    let rhs = Modular::<25>::from_u64(15);
    assert_eq!(lhs.sub(rhs).value(), 20);
}

#[test]
fn subtract_u64() {
    let lhs = Modular::<25>::from_u64(10);
    let rhs: u64 = 15;
    assert_eq!(lhs.sub_u64(rhs).value(), 20);
}

#[test]
fn fast_exponentiation_works() {
    const BIG_PRIME: u64 = 1_000_000_007;
    type M = Modular<BIG_PRIME>;
    assert_eq!(M::fast_exponentiation(2, 3), 8);
    assert_eq!(M::fast_exponentiation(2, 0), 1);
    assert_eq!(M::fast_exponentiation(10, 2), 100);
    // Big numbers also work
    assert!(M::fast_exponentiation(257, 143) < BIG_PRIME);
    assert_eq!(M::fast_exponentiation(257, 4), 362470373);
}

#[test]
fn modular_multiplicative_inverse_works() {
    const BIG_PRIME: u64 = 1_000_000_007;
    assert_eq!(Modular::<BIG_PRIME>::find_modular_inverse(200), 285000002);
    assert_eq!((200 * 285000002) % BIG_PRIME, 1);
}

#[test]
fn divide_modular() {
    let lhs = Modular::<23>::from_u64(8);
    let rhs = Modular::<23>::from_u64(5);
    let div = lhs.div(rhs);
    assert_eq!(div.mul(rhs), lhs);
}

#[test]
fn divide_u64() {
    let lhs = Modular::<23>::from_u64(8);
    let rhs: u64 = 5;
    let div = lhs.div_u64(rhs);
    assert_eq!(div.mul_u64(rhs), lhs);
}

#[test]
fn from_u64_reduces() {
    type M = Modular<1_000_000_007>;
    assert_eq!(M::from_u64(1_000_000_007).value(), 0);
    assert_eq!(M::from_u64(1_000_000_008).value(), 1);
    assert_eq!(M::from_u64(u64::MAX).value(), 582344007);
}

#[test]
fn arithmetic_at_the_largest_modulus() {
    type M = Modular<4_294_967_296>;
    let top = M::from_u64(4_294_967_295);
    assert_eq!(top.mul(top).value(), 1);
    assert_eq!(top.add(top).value(), 4_294_967_294);
    assert_eq!(M::from_u64(0).sub(top).value(), 1);
    assert_eq!(top.add_u64(u64::MAX).value(), 4_294_967_294);
    assert_eq!(top.mul_u64(u64::MAX).value(), 1);
}

#[test]
fn subtract_large_u64_wraps_by_modulus() {
    let lhs = Modular::<25>::from_u64(3);
    assert_eq!(lhs.sub_u64(u64::MAX).value(), (3 + 25 - (u64::MAX % 25)) % 25);
    assert_eq!(lhs.sub_u64(3).value(), 0);
}

#[test]
fn inverse_of_the_base() {
    type M = Modular<1_000_000_007>;
    let inv = M::find_modular_inverse(257);
    assert_eq!(inv, 70038911);
    assert_eq!(M::from_u64(257).mul_u64(inv).value(), 1);
    assert_eq!(M::from_u64(7).div_u64(7).value(), 1);
    assert_eq!(M::from_u64(1).div_u64(7).value(), 142857144);
}

#[test]
fn residues_compare_by_value() {
    let a = Modular::<23>::from_u64(30);
    let b = Modular::<23>::from_u64(7);
    assert_eq!(a, b);
    assert!(Modular::<23>::from_u64(3) < Modular::<23>::from_u64(4));
}
