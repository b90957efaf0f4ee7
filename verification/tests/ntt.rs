use pqc_kyber::params::{KYBER_N, KYBER_Q};
use pqc_kyber::reference::ntt::{invntt, ntt, INV_SCALE};
use pqc_kyber::reference::reduce::montgomery_reduce;
use rand::{rngs::StdRng, Rng, SeedableRng};

const R: u128 = 1u128 << 64;

fn to_mont(x: u64) -> u64 {
    let r_mod_q = R % KYBER_Q;
    let r2 = r_mod_q.wrapping_mul(r_mod_q) % KYBER_Q;
    let x_norm = x as u128 % KYBER_Q;
    montgomery_reduce(x_norm.wrapping_mul(r2)) as u64
}

#[test]
fn ntt_inv_roundtrip() {
    let mut rng = StdRng::seed_from_u64(123);
    for _ in 0..2 {
        let mut a = [0u64; KYBER_N];
        for v in a.iter_mut() {
            *v = rng.gen_range(0..KYBER_Q as u64);
        }
        let mut mont = [0u64; KYBER_N];
        for i in 0..KYBER_N {
            mont[i] = to_mont(a[i]);
        }
        ntt(&mut mont);
        invntt(&mut mont);
        for v in mont.iter_mut() {
            *v = montgomery_reduce(*v as u128) as u64;
        }
        for i in 0..KYBER_N {
            assert_eq!(a[i], mont[i], "idx {}", i);
        }
    }
}

#[test]
fn ntt_scale_probe() {
    // Verify that NTT + invntt roundtrip works correctly with the scaling factor
    assert_eq!(
        INV_SCALE,
        144115188075855872u64,
        "inv_scale mismatch in test"
    );
    let mut a = [0u64; KYBER_N];
    a[0] = 1;
    let mut mont = [0u64; KYBER_N];
    for i in 0..KYBER_N {
        mont[i] = to_mont(a[i]);
    }
    ntt(&mut mont);
    invntt(&mut mont);
    for v in mont.iter_mut() {
        *v = montgomery_reduce(*v as u128) as u64;
    }
    // Impulse should roundtrip to impulse in normal domain.
    for (i, v) in mont.iter().enumerate() {
        let expected = if i == 0 { 1 } else { 0 };
        assert_eq!(*v, expected, "idx {} val {}", i, v);
    }
}

#[test]
fn ntt_invntt_other_direction() {
    // invntt then ntt is the identity too (both transforms are inverse bijections)
    let mut rng = StdRng::seed_from_u64(99);
    let mut a = [0u64; KYBER_N];
    for v in a.iter_mut() {
        *v = rng.gen_range(0..KYBER_Q as u64);
    }
    let mut b = a;
    invntt(&mut b);
    ntt(&mut b);
    assert_eq!(a, b);
}

#[test]
fn ntt_of_impulse_is_constant() {
    // the transform of a constant c is c modulo every quadratic factor:
    // the pairs (c, 0)
    let mut a = [0u64; KYBER_N];
    a[0] = 12345;
    ntt(&mut a);
    for i in 0..KYBER_N {
        assert_eq!(a[i], if i % 2 == 0 { 12345 } else { 0 }, "idx {}", i);
    }
}

#[test]
fn ntt_leaves_tail_untouched() {
    let mut a = vec![0u64; KYBER_N + 3];
    a[0] = 7;
    a[KYBER_N] = 1;
    a[KYBER_N + 2] = 99;
    ntt(&mut a);
    assert_eq!(&a[KYBER_N..], &[1, 0, 99]);
}
