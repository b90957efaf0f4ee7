use pqc_kyber::params::{KYBER_EPP_UNIFORM_BOUND, KYBER_N, KYBER_Q};
use pqc_kyber::reference::poly::{
    poly_add, poly_basemul, poly_compress, poly_decompress, poly_frombytes, poly_frommont,
    poly_frommsg, poly_getnoise_eta1, poly_getnoise_eta2, poly_getnoise_uniform,
    poly_invntt_tomont, poly_mul_negacyclic, poly_ntt, poly_reduce, poly_sub, poly_tobytes,
    poly_tomont, poly_tomsg, poly_uniform_from_bytes, Poly,
};
use pqc_kyber::reference::reduce::barrett_reduce;
use rand::{rngs::StdRng, Rng, SeedableRng};

#[test]
fn ntt_mul_matches_schoolbook() {
    let mut rng = StdRng::seed_from_u64(424242);
    for _ in 0..2 {
        let mut a = Poly::new();
        let mut b = Poly::new();
        for c in a.coeffs.iter_mut() {
            *c = rng.gen_range(0..KYBER_Q as i128);
        }
        for c in b.coeffs.iter_mut() {
            *c = rng.gen_range(0..KYBER_Q as i128);
        }

        let mut want = Poly::new();
        poly_mul_negacyclic(&mut want, &a, &b);
        poly_reduce(&mut want);

        let mut an = a;
        let mut bn = b;
        poly_tomont(&mut an);
        poly_tomont(&mut bn);
        poly_ntt(&mut an);
        poly_ntt(&mut bn);

        let mut got = Poly::new();
        poly_basemul(&mut got, &an, &bn);
        poly_invntt_tomont(&mut got);
        poly_frommont(&mut got);
        poly_reduce(&mut got);

        for i in 0..KYBER_N {
            assert_eq!(
                barrett_reduce(got.coeffs[i] - want.coeffs[i]),
                0,
                "mismatch at coeff {}",
                i
            );
        }
    }
}

#[test]
fn negacyclic_wraps_with_sign() {
    // X^255 * X = X^256 = -1
    let mut a = Poly::new();
    let mut b = Poly::new();
    a.coeffs[255] = 1;
    b.coeffs[1] = 1;
    let mut r = Poly::new();
    poly_mul_negacyclic(&mut r, &a, &b);
    assert_eq!(r.coeffs[0], KYBER_Q as i128 - 1);
    assert!(r.coeffs[1..].iter().all(|&c| c == 0));
    // (1 + 2X)(3 + X) = 3 + 7X + 2X^2
    let mut a = Poly::new();
    let mut b = Poly::new();
    a.coeffs[0] = 1;
    a.coeffs[1] = 2;
    b.coeffs[0] = 3;
    b.coeffs[1] = 1;
    poly_mul_negacyclic(&mut r, &a, &b);
    assert_eq!(&r.coeffs[..4], &[3, 7, 2, 0]);
}

#[test]
fn bytes_roundtrip_and_layout() {
    let mut a = Poly::new();
    a.coeffs[0] = 0x0102_0304_0506_0708;
    a.coeffs[1] = -1;
    a.coeffs[255] = KYBER_Q as i128 + 3;
    let mut bytes = vec![0xAAu8; 2050];
    poly_tobytes(&mut bytes, a);
    assert_eq!(&bytes[0..8], &[8, 7, 6, 5, 4, 3, 2, 1]);
    assert_eq!(&bytes[8..16], &((KYBER_Q - 1) as u64).to_le_bytes());
    assert_eq!(&bytes[2040..2048], &[3, 0, 0, 0, 0, 0, 0, 0]);
    assert_eq!(&bytes[2048..], &[0xAA, 0xAA]);
    let mut b = Poly::new();
    poly_frombytes(&mut b, &bytes);
    assert_eq!(b.coeffs[0], 0x0102_0304_0506_0708);
    assert_eq!(b.coeffs[1], KYBER_Q as i128 - 1);
    assert_eq!(b.coeffs[255], 3);
    let mut c = Poly::new();
    let mut bytes2 = vec![0u8; 2048];
    poly_compress(&mut bytes2, b);
    poly_decompress(&mut c, &bytes2);
    assert_eq!(b.coeffs, c.coeffs);
}

#[test]
fn message_roundtrip() {
    let msg: Vec<u8> = (0u8..32).map(|i| i.wrapping_mul(37) ^ 0x5a).collect();
    let mut p = Poly::new();
    poly_frommsg(&mut p, &msg);
    let half = ((KYBER_Q + 1) / 2) as i128;
    assert_eq!(p.coeffs[1], if msg[0] & 2 != 0 { half } else { 0 });
    let mut out = [0u8; 33];
    out[32] = 7;
    poly_tomsg(&mut out, p);
    assert_eq!(&out[..32], &msg[..]);
    assert_eq!(out[32], 7);
}

#[test]
fn tomsg_decision_thresholds() {
    let q = KYBER_Q as i128;
    let mut p = Poly::new();
    p.coeffs[0] = q / 4 - 1; // closer to 0
    p.coeffs[1] = q / 4 + 1; // closer to q/2
    p.coeffs[2] = -(q / 4 - 1); // negative, closer to 0
    p.coeffs[3] = q / 2; // one
    p.coeffs[4] = 3 * q / 4 + 1; // closer to q (= 0)
    let mut out = [0u8; 32];
    poly_tomsg(&mut out, p);
    assert_eq!(out[0], 0b0000_1010);
}

#[test]
fn mont_conversions() {
    let mut p = Poly::new();
    p.coeffs[0] = 1;
    p.coeffs[1] = -1;
    p.coeffs[2] = 12345;
    let orig = p;
    poly_tomont(&mut p);
    // 1 becomes 2^64 mod q
    assert_eq!(p.coeffs[0], ((1u128 << 64) % KYBER_Q) as i128);
    poly_frommont(&mut p);
    assert_eq!(p.coeffs[0], 1);
    assert_eq!(p.coeffs[1], KYBER_Q as i128 - 1);
    assert_eq!(p.coeffs[2], orig.coeffs[2]);
}

#[test]
fn add_sub_reduce() {
    let mut a = Poly::new();
    let mut b = Poly::new();
    a.coeffs[0] = 5;
    b.coeffs[0] = 7;
    a.coeffs[3] = -2;
    b.coeffs[3] = 10;
    poly_add(&mut a, &b);
    assert_eq!(a.coeffs[0], 12);
    assert_eq!(a.coeffs[3], 8);
    poly_sub(&mut a, &b);
    assert_eq!(a.coeffs[0], 5);
    assert_eq!(a.coeffs[3], -2);
    poly_reduce(&mut a);
    assert_eq!(a.coeffs[3], KYBER_Q as i128 - 2);
}

#[test]
fn noise_ranges_and_determinism() {
    let seed = [3u8; 32];
    let mut a = Poly::new();
    let mut b = Poly::new();
    poly_getnoise_eta1(&mut a, &seed, 0);
    poly_getnoise_eta2(&mut b, &seed, 0);
    assert!(a.coeffs.iter().all(|&c| (-2..=2).contains(&c)));
    assert_eq!(a.coeffs, b.coeffs);
    poly_getnoise_eta1(&mut b, &seed, 1);
    assert_ne!(a.coeffs, b.coeffs);
    let mut u = Poly::new();
    poly_getnoise_uniform(&mut u, &seed, 24);
    assert!(u
        .coeffs
        .iter()
        .all(|&c| -KYBER_EPP_UNIFORM_BOUND <= c && c < KYBER_EPP_UNIFORM_BOUND));
    assert!(u.coeffs.iter().any(|&c| c != u.coeffs[0]));
}

#[test]
fn basemul_of_ones() {
    // in the NTT domain the Montgomery form of 1 is the unit of basemul
    let r_mod_q = ((1u128 << 64) % KYBER_Q) as i128;
    let mut one = Poly::new();
    one.coeffs[0] = 1;
    poly_tomont(&mut one);
    assert_eq!(one.coeffs[0], r_mod_q);
    poly_ntt(&mut one);
    let mut x = Poly::new();
    x.coeffs[3] = 42;
    poly_tomont(&mut x);
    poly_ntt(&mut x);
    let mut y = Poly::new();
    poly_basemul(&mut y, &one, &x);
    assert_eq!(y.coeffs, x.coeffs);
}

#[test]
fn ntt_is_additive() {
    let mut rng = StdRng::seed_from_u64(31337);
    let mut a = Poly::new();
    let mut b = Poly::new();
    for c in a.coeffs.iter_mut() {
        *c = rng.gen_range(0..KYBER_Q as i128);
    }
    for c in b.coeffs.iter_mut() {
        *c = rng.gen_range(0..KYBER_Q as i128);
    }
    let mut sum = a;
    poly_add(&mut sum, &b);
    poly_reduce(&mut sum);
    poly_ntt(&mut sum);

    let mut an = a;
    let mut bn = b;
    poly_ntt(&mut an);
    poly_ntt(&mut bn);
    poly_add(&mut an, &bn);
    poly_reduce(&mut an);

    assert_eq!(sum.coeffs, an.coeffs);
}

#[test]
fn tomsg_tolerates_error_below_quarter_q() {
    let quarter = (KYBER_Q / 4) as i128;
    let mut rng = StdRng::seed_from_u64(2024);
    let mut m = [0u8; 32];
    for b in m.iter_mut() {
        *b = rng.gen();
    }
    let mut p = Poly::new();
    poly_frommsg(&mut p, &m);
    for (i, c) in p.coeffs.iter_mut().enumerate() {
        let e = match i % 3 {
            0 => quarter - 1,
            1 => -(quarter - 1),
            _ => rng.gen_range(-(quarter - 1)..quarter),
        };
        *c += e;
    }
    let mut out = [0u8; 32];
    poly_tomsg(&mut out, p);
    assert_eq!(out, m);
}

#[test]
fn uniform_sampler_rejects_words_above_the_limit() {
    // bound 3: range 6, 2^64 mod 6 = 4, so the four largest words are rejected.
    let mut buf = Vec::new();
    buf.extend_from_slice(&u64::MAX.to_le_bytes());
    buf.extend_from_slice(&(u64::MAX - 3).to_le_bytes());
    buf.extend_from_slice(&7u64.to_le_bytes());
    buf.extend_from_slice(&(u64::MAX - 4).to_le_bytes());
    buf.extend_from_slice(&6u64.to_le_bytes());
    let mut r = Poly::new();
    r.coeffs[10] = 99;
    poly_uniform_from_bytes(&mut r, &buf, 3);
    // 7 mod 6 - 3 = -2; (2^64 - 5) mod 6 = 5, minus 3 = 2; 6 mod 6 - 3 = -3
    assert_eq!(r.coeffs[0], -2);
    assert_eq!(r.coeffs[1], 2);
    assert_eq!(r.coeffs[2], -3);
    // too few accepted words: the rest is 0
    assert!(r.coeffs[3..].iter().all(|&c| c == 0));
}

#[test]
fn uniform_sampler_default_bound_takes_every_word() {
    // 2^64 is a multiple of 32, so nothing is rejected with the default bound.
    let buf: Vec<u8> = (0..2048u32).map(|i| (i * 37 + 11) as u8).collect();
    let mut r = Poly::new();
    poly_uniform_from_bytes(&mut r, &buf, KYBER_EPP_UNIFORM_BOUND);
    for i in 0..KYBER_N {
        let w = u64::from_le_bytes(buf[8 * i..8 * i + 8].try_into().unwrap());
        assert_eq!(r.coeffs[i], (w % 32) as i128 - 16);
    }
}

#[test]
fn bytes_reencode_iff_words_below_q() {
    let mut x = vec![0u8; 2048];
    for (i, b) in x.iter_mut().enumerate() {
        *b = if i % 8 == 7 { (i % 128) as u8 } else { (i * 13 % 251) as u8 };
    }
    // every word has its top byte below 0x80, so is below q
    let mut p = Poly::new();
    poly_frombytes(&mut p, &x);
    let mut y = vec![0u8; 2048];
    poly_tobytes(&mut y, p);
    assert_eq!(x, y);
    // a word at or above q does not come back
    x[8..16].copy_from_slice(&(KYBER_Q as u64).to_le_bytes());
    poly_frombytes(&mut p, &x);
    poly_tobytes(&mut y, p);
    assert_ne!(x, y);
    assert_eq!(&y[8..16], &0u64.to_le_bytes());
}
