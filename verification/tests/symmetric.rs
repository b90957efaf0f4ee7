use pqc_kyber::reference::symmetric::{hash_g, prf, xof};

// Known answers of the FIPS 202 functions on the concatenated inputs.
#[test]
fn prf_is_shake256_of_key_and_nonce() {
    let key = [0u8; 32];
    let out = prf(&key, 0, 8);
    assert_eq!(out, vec![0xc0, 0x3f, 0xcc, 0x81, 0xe7, 0x36, 0x09, 0x87]);
}

#[test]
fn xof_is_shake128_of_seed_and_indices() {
    let seed = [0u8; 32];
    let out = xof(&seed, 1, 2, 8);
    assert_eq!(out, vec![0x8a, 0x40, 0xe6, 0x07, 0x09, 0xb8, 0x8a, 0x08]);
}

#[test]
fn hash_g_is_sha3_512_of_prefix() {
    let input = [1u8, 2, 3, 99, 99];
    let mut out = [0xEEu8; 66];
    hash_g(&mut out, &input, 3);
    assert_eq!(&out[..8], &[0x0c, 0x60, 0xae, 0x04, 0xfb, 0xb1, 0x7f, 0xe3]);
    assert_eq!(&out[64..], &[0xEE, 0xEE]);
}
