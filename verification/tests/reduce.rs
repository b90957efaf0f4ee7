use pqc_kyber::params::KYBER_Q;
use pqc_kyber::reference::reduce::{add_mod, barrett_reduce, montgomery_reduce, mul_mod, sub_mod};

const Q: i128 = KYBER_Q as i128;
const RINV: i128 = 1271475462236046151;

#[test]
fn montgomery_reduce_divides_by_radix() {
    // 2^64 reduces to 1
    assert_eq!(montgomery_reduce(1u128 << 64), 1);
    // 0 reduces to 0
    assert_eq!(montgomery_reduce(0), 0);
    // 1 reduces to 2^-64 mod q
    assert_eq!(montgomery_reduce(1), RINV);
    // 5 * 2^64 reduces to 5
    assert_eq!(montgomery_reduce(5u128 << 64), 5);
    // the result is below q for inputs below q * 2^64
    let a = (KYBER_Q - 1) * (KYBER_Q - 1);
    let r = montgomery_reduce(a);
    assert!(r >= 0 && r < Q);
    assert_eq!((r as u128 * ((1u128 << 64) % KYBER_Q)) % KYBER_Q, a % KYBER_Q);
}

#[test]
fn montgomery_reduce_large_input() {
    // even the largest input gives a value congruent to a 2^-64
    let r = montgomery_reduce(u128::MAX);
    assert!(r >= 0);
    let rr = (r as u128 % KYBER_Q) * ((1u128 << 64) % KYBER_Q) % KYBER_Q;
    assert_eq!(rr, u128::MAX % KYBER_Q);
}

#[test]
fn barrett_reduce_is_euclidean() {
    assert_eq!(barrett_reduce(-1), Q - 1);
    assert_eq!(barrett_reduce(Q), 0);
    assert_eq!(barrett_reduce(Q + 5), 5);
    assert_eq!(barrett_reduce(-Q - 5), Q - 5);
    assert_eq!(barrett_reduce(i128::MIN), i128::MIN.rem_euclid(Q));
}

#[test]
fn mul_mod_values() {
    assert_eq!(mul_mod(-1, -1), 1);
    assert_eq!(mul_mod(-1, 2), Q - 2);
    assert_eq!(mul_mod(Q - 1, Q - 1), 1);
    assert_eq!(mul_mod(1i128 << 64, 1), ((1u128 << 64) % KYBER_Q) as i128);
}

#[test]
fn add_sub_mod_wrap() {
    let q = KYBER_Q as u64;
    assert_eq!(add_mod(q - 1, 1), 0);
    assert_eq!(add_mod(q - 1, q - 1), q - 2);
    assert_eq!(sub_mod(0, 1), q - 1);
    assert_eq!(sub_mod(5, 3), 2);
}
