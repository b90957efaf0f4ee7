use vstd::prelude::*;
use crate::params::KYBER_N;
use crate::reference::poly::Poly;

verus! {

/// Coefficient `k` of the centered binomial distribution with eta = 2: the
/// four bits of nibble `k` of the buffer (low nibble of byte `k / 2` first)
/// give `(b0 + b1) - (b2 + b3)`, a value in [-2, 2].
pub open spec fn cbd2_coeff(buf: Seq<u8>, k: int) -> int {
    let byte = buf[k / 2];
    let nib = if k % 2 == 0 { byte & 0x0fu8 } else { byte >> 4u8 };
    ((nib & 1u8) as int) + (((nib >> 1u8) & 1u8) as int) - (((nib >> 2u8) & 1u8) as int)
        - (((nib >> 3u8) & 1u8) as int)
}

/// Bit `n` of a byte string read as a little-endian bit string: bit
/// `n % 8` of byte `n / 8`.
pub open spec fn stream_bit(buf: Seq<u8>, n: int) -> int {
    ((buf[n / 8] >> ((n % 8) as u8)) & 1u8) as int
}

/// Each centered binomial coefficient takes four fresh bits of the buffer:
/// coefficient `k` is `(bit 4k + bit 4k+1) - (bit 4k+2 + bit 4k+3)`.
pub proof fn lemma_cbd2_bits(buf: Seq<u8>, k: int)
    requires
        0 <= k < 256,
    ensures
        cbd2_spec(buf)[k] == (stream_bit(buf, 4 * k) + stream_bit(buf, 4 * k + 1))
            - (stream_bit(buf, 4 * k + 2) + stream_bit(buf, 4 * k + 3)),
{
    let byte = buf[k / 2];
    assert((4 * k) / 8 == k / 2 && (4 * k + 1) / 8 == k / 2 && (4 * k + 2) / 8 == k / 2 && (4 * k + 3) / 8 == k / 2);
    if k % 2 == 0 {
        assert((4 * k) % 8 == 0 && (4 * k + 1) % 8 == 1 && (4 * k + 2) % 8 == 2 && (4 * k + 3) % 8 == 3);
        assert(((byte & 0x0fu8) & 1u8) == ((byte >> 0u8) & 1u8) && (((byte & 0x0fu8) >> 1u8) & 1u8) == ((byte >> 1u8) & 1u8)
            && (((byte & 0x0fu8) >> 2u8) & 1u8) == ((byte >> 2u8) & 1u8)
            && (((byte & 0x0fu8) >> 3u8) & 1u8) == ((byte >> 3u8) & 1u8)) by (bit_vector);
    } else {
        assert((4 * k) % 8 == 4 && (4 * k + 1) % 8 == 5 && (4 * k + 2) % 8 == 6 && (4 * k + 3) % 8 == 7);
        assert(((byte >> 4u8) & 1u8) == ((byte >> 4u8) & 1u8) && (((byte >> 4u8) >> 1u8) & 1u8) == ((byte >> 5u8) & 1u8)
            && (((byte >> 4u8) >> 2u8) & 1u8) == ((byte >> 6u8) & 1u8)
            && (((byte >> 4u8) >> 3u8) & 1u8) == ((byte >> 7u8) & 1u8)) by (bit_vector);
    }
}

/// A polynomial sampled with eta = 2 from 128 bytes.
pub open spec fn cbd2_spec(buf: Seq<u8>) -> Seq<int> {
    Seq::new(256, |k: int| cbd2_coeff(buf, k))
}

/// Centered binomial sampling with eta = 2 from the first 128 bytes of `buf`.
fn cbd2(r: &mut Poly, buf: &[u8])
    requires
        buf@.len() >= 128,
    ensures
        final(r)@ == cbd2_spec(buf@),
{
    let mut k: usize = 0;
    while k < KYBER_N
        invariant
            k <= 256,
            buf@.len() >= 128,
            forall|j: int| 0 <= j < k ==> #[trigger] r.coeffs@[j] as int == cbd2_coeff(buf@, j),
        decreases 256 - k,
    {
        let byte = buf[k / 2];
        let nib = if k % 2 == 0 { byte & 0x0fu8 } else { byte >> 4u8 };
        proof {
            assert(nib & 1u8 <= 1u8 && (nib >> 1u8) & 1u8 <= 1u8 && (nib >> 2u8) & 1u8 <= 1u8
                && (nib >> 3u8) & 1u8 <= 1u8) by (bit_vector);
        }
        let a = (nib & 1u8) + ((nib >> 1u8) & 1u8);
        let b = ((nib >> 2u8) & 1u8) + ((nib >> 3u8) & 1u8);
        r.coeffs[k] = a as i128 - b as i128;
        k = k + 1;
    }
    assert(r@ =~= cbd2_spec(buf@));
}

/// Name:  poly_cbd_eta1
///
/// Description: Given an array of uniformly random bytes, compute
///  polynomial with coefficients distributed according to
///  a centered binomial distribution with parameter KYBER_ETA1 = 2
pub fn poly_cbd_eta1(r: &mut Poly, buf: &[u8])
    requires
        buf@.len() >= 128,
    ensures
        final(r)@ == cbd2_spec(buf@),
{
    cbd2(r, buf);
}

/// Name:  poly_cbd_eta2
///
/// Description: Given an array of uniformly random bytes, compute
///  polynomial with coefficients distributed according to
///  a centered binomial distribution with parameter KYBER_ETA2 = 2
pub fn poly_cbd_eta2(r: &mut Poly, buf: &[u8])
    requires
        buf@.len() >= 128,
    ensures
        final(r)@ == cbd2_spec(buf@),
{
    cbd2(r, buf);
}

} // verus!
