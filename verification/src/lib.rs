//! The IND-CPA public-key encryption layer of a Kyber variant with a 64-bit
//! modulus and module rank 12, with its contracts and laws proved by Verus.

pub mod params;
pub mod reference;
