use pqc_kyber::params::{
    KYBER_INDCPA_BYTES, KYBER_INDCPA_PUBLICKEYBYTES, KYBER_INDCPA_SECRETKEYBYTES, KYBER_K,
    KYBER_N, KYBER_Q, KYBER_SYMBYTES,
};
use pqc_kyber::reference::indcpa::{
    indcpa_dec, indcpa_enc, indcpa_enc_with_epp_bound, indcpa_keypair, pack_ciphertext, pack_pk,
    pack_sk, unpack_ciphertext, unpack_pk, unpack_sk, gen_a, gen_at,
};
use pqc_kyber::reference::poly::{poly_tomont, Poly};
use pqc_kyber::reference::polyvec::{polyvec_ntt, polyvec_tomont, Polyvec};
use rand::{rngs::StdRng, Rng, RngCore, SeedableRng};

fn random_poly(rng: &mut StdRng) -> Poly {
    let mut p = Poly::new();
    for c in p.coeffs.iter_mut() {
        *c = rng.gen_range(0..KYBER_Q as u64) as i128;
    }
    p
}

fn random_polyvec(rng: &mut StdRng) -> Polyvec {
    let mut v = Polyvec::new();
    for i in 0..KYBER_K {
        v.vec[i] = random_poly(rng);
    }
    v
}

#[test]
fn indcpa_roundtrip() {
    let mut rng = StdRng::seed_from_u64(7);
    let mut pk = [0u8; KYBER_INDCPA_PUBLICKEYBYTES];
    let mut sk = [0u8; KYBER_INDCPA_SECRETKEYBYTES];
    let mut key_coins = [0u8; KYBER_SYMBYTES];
    rng.fill_bytes(&mut key_coins);
    indcpa_keypair(&mut pk, &mut sk, &key_coins);

    let mut m = [0u8; KYBER_SYMBYTES];
    rng.fill_bytes(&mut m);
    let mut coins = [0u8; KYBER_SYMBYTES];
    rng.fill_bytes(&mut coins);

    let mut c = [0u8; KYBER_INDCPA_BYTES];
    indcpa_enc(&mut c, &m, &pk, &coins);

    let mut m_dec = [0u8; KYBER_SYMBYTES];
    indcpa_dec(&mut m_dec, &c, &sk);
    assert_eq!(m, m_dec);
}

#[test]
fn pack_unpack_domain_symmetry() {
    let mut rng = StdRng::seed_from_u64(777);

    let mut pk_ntt = random_polyvec(&mut rng);
    polyvec_tomont(&mut pk_ntt);
    polyvec_ntt(&mut pk_ntt);
    let pk_ntt_orig = pk_ntt;
    let mut seed = [0u8; KYBER_SYMBYTES];
    rng.fill_bytes(&mut seed);
    let mut packed_pk = [0u8; KYBER_INDCPA_PUBLICKEYBYTES];
    pack_pk(&mut packed_pk, &mut pk_ntt, &seed);
    let mut unpacked_pk = Polyvec::new();
    let mut seed2 = [0u8; KYBER_SYMBYTES];
    unpack_pk(&mut unpacked_pk, &mut seed2, &packed_pk);
    assert_eq!(seed, seed2);
    for i in 0..KYBER_K {
        for j in 0..KYBER_N {
            assert_eq!(unpacked_pk.vec[i].coeffs[j], pk_ntt_orig.vec[i].coeffs[j]);
        }
    }
    let mut repacked_pk = [0u8; KYBER_INDCPA_PUBLICKEYBYTES];
    pack_pk(&mut repacked_pk, &mut unpacked_pk, &seed2);
    assert_eq!(packed_pk, repacked_pk);

    let mut sk_ntt = random_polyvec(&mut rng);
    polyvec_tomont(&mut sk_ntt);
    polyvec_ntt(&mut sk_ntt);
    let sk_ntt_orig = sk_ntt;
    let mut packed_sk = [0u8; KYBER_INDCPA_SECRETKEYBYTES];
    pack_sk(&mut packed_sk, &mut sk_ntt);
    let mut unpacked_sk = Polyvec::new();
    unpack_sk(&mut unpacked_sk, &packed_sk);
    for i in 0..KYBER_K {
        for j in 0..KYBER_N {
            assert_eq!(unpacked_sk.vec[i].coeffs[j], sk_ntt_orig.vec[i].coeffs[j]);
        }
    }
    let mut repacked_sk = [0u8; KYBER_INDCPA_SECRETKEYBYTES];
    pack_sk(&mut repacked_sk, &mut unpacked_sk);
    assert_eq!(packed_sk, repacked_sk);

    let b_norm = random_polyvec(&mut rng);
    let v_norm = random_poly(&mut rng);
    let mut b_mont = b_norm;
    let mut v_mont = v_norm;
    polyvec_tomont(&mut b_mont);
    poly_tomont(&mut v_mont);
    let mut packed_ct = [0u8; KYBER_INDCPA_BYTES];
    pack_ciphertext(&mut packed_ct, &mut b_mont, v_mont);
    let mut b_out = Polyvec::new();
    let mut v_out = Poly::new();
    unpack_ciphertext(&mut b_out, &mut v_out, &packed_ct);
    for i in 0..KYBER_K {
        for j in 0..KYBER_N {
            assert_eq!(b_out.vec[i].coeffs[j], b_norm.vec[i].coeffs[j]);
        }
    }
    for j in 0..KYBER_N {
        assert_eq!(v_out.coeffs[j], v_norm.coeffs[j]);
    }
}

#[test]
fn keypair_and_encryption_are_deterministic() {
    let coins = [0x42u8; 32];
    let mut pk1 = vec![0u8; KYBER_INDCPA_PUBLICKEYBYTES];
    let mut sk1 = vec![0u8; KYBER_INDCPA_SECRETKEYBYTES];
    let mut pk2 = vec![0u8; KYBER_INDCPA_PUBLICKEYBYTES];
    let mut sk2 = vec![0u8; KYBER_INDCPA_SECRETKEYBYTES];
    indcpa_keypair(&mut pk1, &mut sk1, &coins);
    indcpa_keypair(&mut pk2, &mut sk2, &coins);
    assert_eq!(pk1, pk2);
    assert_eq!(sk1, sk2);
    let m = [0xA5u8; 32];
    let mut c1 = vec![0u8; KYBER_INDCPA_BYTES];
    let mut c2 = vec![0u8; KYBER_INDCPA_BYTES];
    indcpa_enc(&mut c1, &m, &pk1, &[1u8; 32]);
    indcpa_enc(&mut c2, &m, &pk1, &[1u8; 32]);
    assert_eq!(c1, c2);
    let mut c3 = vec![0u8; KYBER_INDCPA_BYTES];
    indcpa_enc(&mut c3, &m, &pk1, &[2u8; 32]);
    assert_ne!(c1, c3);
    let mut out = [0u8; 32];
    indcpa_dec(&mut out, &c1, &sk1);
    assert_eq!(out, m);
    indcpa_dec(&mut out, &c3, &sk1);
    assert_eq!(out, m);
}

#[test]
fn public_key_ends_with_matrix_seed_and_differs_by_coins() {
    let mut pk1 = vec![0u8; KYBER_INDCPA_PUBLICKEYBYTES + 4];
    let mut sk1 = vec![0u8; KYBER_INDCPA_SECRETKEYBYTES];
    indcpa_keypair(&mut pk1, &mut sk1, &[9u8; 32]);
    assert_eq!(&pk1[KYBER_INDCPA_PUBLICKEYBYTES..], &[0, 0, 0, 0]);
    let mut pk2 = vec![0u8; KYBER_INDCPA_PUBLICKEYBYTES];
    let mut sk2 = vec![0u8; KYBER_INDCPA_SECRETKEYBYTES];
    indcpa_keypair(&mut pk2, &mut sk2, &[8u8; 32]);
    assert_ne!(pk1[..KYBER_INDCPA_PUBLICKEYBYTES], pk2[..]);
    assert_ne!(sk1, sk2);
}

#[test]
fn small_epp_bound_roundtrip() {
    let mut pk = vec![0u8; KYBER_INDCPA_PUBLICKEYBYTES];
    let mut sk = vec![0u8; KYBER_INDCPA_SECRETKEYBYTES];
    indcpa_keypair(&mut pk, &mut sk, &[5u8; 32]);
    let m: Vec<u8> = (0u8..32).collect();
    let mut c = vec![0u8; KYBER_INDCPA_BYTES];
    indcpa_enc_with_epp_bound(&mut c, &m, &pk, &[6u8; 32], 16);
    let mut out = [0u8; 32];
    indcpa_dec(&mut out, &c, &sk);
    assert_eq!(&out[..], &m[..]);
}

#[test]
fn matrix_and_transpose() {
    let seed = [11u8; 32];
    let mut a = vec![Polyvec::new(); KYBER_K];
    let mut at = vec![Polyvec::new(); KYBER_K];
    gen_a(&mut a, &seed);
    gen_at(&mut at, &seed);
    for i in 0..KYBER_K {
        for j in 0..KYBER_K {
            assert_eq!(a[i].vec[j].coeffs, at[j].vec[i].coeffs);
        }
    }
    assert!(a[0].vec[0].coeffs.iter().all(|&c| 0 <= c && c < KYBER_Q as i128));
    assert_ne!(a[0].vec[1].coeffs, a[1].vec[0].coeffs);
}

#[test]
fn largest_always_correct_bound_roundtrip() {
    // q / 4 - 24576: every coins value decrypts correctly with this bound.
    let bound: i128 = (KYBER_Q / 4) as i128 - 24576;
    assert_eq!(bound, 3458764513818950016);
    let mut rng = StdRng::seed_from_u64(99);
    for _ in 0..3 {
        let mut key_coins = [0u8; KYBER_SYMBYTES];
        rng.fill_bytes(&mut key_coins);
        let mut pk = vec![0u8; KYBER_INDCPA_PUBLICKEYBYTES];
        let mut sk = vec![0u8; KYBER_INDCPA_SECRETKEYBYTES];
        indcpa_keypair(&mut pk, &mut sk, &key_coins);
        let mut m = [0u8; KYBER_SYMBYTES];
        rng.fill_bytes(&mut m);
        let mut coins = [0u8; KYBER_SYMBYTES];
        rng.fill_bytes(&mut coins);
        let mut c = vec![0u8; KYBER_INDCPA_BYTES];
        indcpa_enc_with_epp_bound(&mut c, &m, &pk, &coins, bound);
        let mut out = [0u8; KYBER_SYMBYTES];
        indcpa_dec(&mut out, &c, &sk);
        assert_eq!(out, m);
    }
}
