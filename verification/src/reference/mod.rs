/// Montgomery and Barrett reduction and modular arithmetic.
pub mod reduce;
/// The number-theoretic transform and its inverse.
pub mod ntt;
/// Polynomials: encodings, arithmetic, products and noise.
pub mod poly;
/// Vectors of polynomials.
pub mod polyvec;
/// PRF, XOF and hash functions.
pub mod symmetric;
/// Centered binomial sampling.
pub mod cbd;
/// Key generation, encryption and decryption.
pub mod indcpa;
/// What the transform computes: multiplication in the NTT domain is
/// multiplication modulo `X^256 + 1`.
pub mod convolution;
/// The algebra of NTT-domain products and the laws that decryption undoes
/// encryption.
pub mod correctness;
