# pqc_kyber

The IND-CPA public-key encryption layer of a Kyber variant (N = 256,
k = 12, q = 13835058055275898369, 8-byte little-endian coefficients, no
compression, a uniform error `e2` in `[-bound, bound)` drawn by rejection
sampling, default bound 16), written in Verus.
Every function in `src/` carries a contract that Verus proves.

## Layout

- `src/params.rs` – the parameter set.
- `src/reference/reduce.rs` – Montgomery and Barrett reduction, modular
  arithmetic facts.
- `src/reference/ntt.rs` – the zeta table, the forward and inverse
  transforms, and the laws that each undoes the other.
- `src/reference/poly.rs`, `polyvec.rs` – polynomial and vector operations:
  (de)serialization, message encoding, NTT-domain products, noise sampling.
- `src/reference/cbd.rs` – centered binomial sampling.
- `src/reference/symmetric.rs` – PRF, XOF and hash, on top of the `sha3`
  crate (the only trusted items of the library).
- `src/reference/indcpa.rs` – key generation, encryption, decryption and the
  key and ciphertext encodings, each specified by a spec function.
- `src/reference/convolution.rs` – the transform's residues modulo
  `X^(256/2^m) - w` at every level, and the proof that NTT-domain
  multiplication is multiplication modulo `X^256 + 1`.
- `src/reference/correctness.rs` – the algebra of NTT-domain products and
  the laws that decryption undoes encryption.
- `tests/` – tests of the library on concrete values.
- `app/` – key generation from a random number generator (`rand`).

## Main laws

- `lemma_invntt_ntt`, `lemma_ntt_invntt`: the transforms are inverse to each
  other on canonical polynomials.
- `lemma_ntt_mul_schoolbook`: multiplying in the NTT domain and transforming
  back is the negacyclic product.
- `lemma_pk_roundtrip`, `lemma_sk_roundtrip`, `lemma_ciphertext_roundtrip`,
  `lemma_poly_bytes_roundtrip`, `lemma_msg_roundtrip`: decoding undoes
  encoding.
- `lemma_poly_bytes_reencode`: serializing de-serialized bytes gives them
  back if and only if every word is below q.
- `lemma_msg_decode_tolerance`: a message decodes correctly under any error
  below q / 4 per coefficient.
- `lemma_ntt_level`, `lemma_ev_pair`: after `m` layers each block of the
  transform is the residue of the input modulo `X^(256/2^m) - w`.
- `lemma_keypair_structure`, `lemma_public_key_ring`: the public key holds
  `t = A s + e` (in the NTT domain and in the ring) and the seed of `A`, the
  secret key holds `s`.
- `lemma_decrypt_encrypt`, `lemma_decrypt_encrypt_small_noise`,
  `lemma_decrypt_encrypt_default_bound`, `lemma_decrypt_encrypt_bounded`:
  decryption returns the encrypted message when the decryption error
  `s^T e1 - e^T r - e2` stays within a quarter of q; for every bound up to
  `q / 4 - 24576`, the default 16 among them, it always does.
