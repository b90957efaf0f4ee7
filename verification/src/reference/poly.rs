use vstd::prelude::*;
use vstd::arithmetic::div_mod::*;
use vstd::arithmetic::mul::*;
use crate::params::{KYBER_N, KYBER_Q, KYBER_POLYBYTES, KYBER_SYMBYTES, KYBER_ETA1, KYBER_ETA2, KYBER_EPP_UNIFORM_BOUND};
use crate::reference::symmetric::{prf, prf_spec};
use crate::reference::cbd::{poly_cbd_eta1, poly_cbd_eta2, cbd2_spec};
use crate::reference::reduce::{
    q, mont_r, mont_r_inv, lemma_constants, montgomery_reduce, montgomery_reduce_spec,
    barrett_reduce, mul_mod,
};
use crate::reference::ntt::{
    ntt, invntt, fqmul, zeta_at, ntt_spec, invntt_spec, fqmul_spec, zeta_spec, canonical,
    u64s_to_ints, lemma_zeta,
};

verus! {

/// A polynomial of degree below 256 with one integer coefficient per power.
#[derive(Clone, Copy)]
pub struct Poly {
    pub coeffs: [i128; KYBER_N],
}

impl View for Poly {
    type V = Seq<int>;

    /// The coefficients as mathematical integers.
    open spec fn view(&self) -> Seq<int> {
        Seq::new(256, |i: int| self.coeffs@[i] as int)
    }
}

/// The zero polynomial.
pub open spec fn zero_poly() -> Seq<int> {
    Seq::new(256, |i: int| 0)
}

impl Default for Poly {
    fn default() -> (r: Self)
        ensures
            r@ == zero_poly(),
    {
        let r = Poly { coeffs: [0i128; KYBER_N] };
        assert(r@ =~= zero_poly());
        r
    }
}

impl Poly {
    /// The zero polynomial.
    pub fn new() -> (r: Self)
        ensures
            r@ == zero_poly(),
    {
        let r = Poly { coeffs: [0i128; KYBER_N] };
        assert(r@ =~= zero_poly());
        r
    }
}

// ---------------------------------------------------------------------------
// Serialization: each coefficient as an 8-byte little-endian word.

/// Byte `k` (0 = least significant) of a 64-bit word.
pub open spec fn u64_byte(v: u64, k: int) -> u8 {
    if k == 0 {
        v as u8
    } else if k == 1 {
        (v >> 8u64) as u8
    } else if k == 2 {
        (v >> 16u64) as u8
    } else if k == 3 {
        (v >> 24u64) as u8
    } else if k == 4 {
        (v >> 32u64) as u8
    } else if k == 5 {
        (v >> 40u64) as u8
    } else if k == 6 {
        (v >> 48u64) as u8
    } else {
        (v >> 56u64) as u8
    }
}

/// The 64-bit word with the given little-endian bytes.
pub open spec fn u64_from_bytes(b0: u8, b1: u8, b2: u8, b3: u8, b4: u8, b5: u8, b6: u8, b7: u8) -> u64 {
    (b0 as u64) | ((b1 as u64) << 8u64) | ((b2 as u64) << 16u64) | ((b3 as u64) << 24u64)
        | ((b4 as u64) << 32u64) | ((b5 as u64) << 40u64) | ((b6 as u64) << 48u64)
        | ((b7 as u64) << 56u64)
}

/// The little-endian 64-bit word stored at offset `off` of `s`.
pub open spec fn le_u64_at(s: Seq<u8>, off: int) -> u64 {
    u64_from_bytes(s[off], s[off + 1], s[off + 2], s[off + 3], s[off + 4], s[off + 5], s[off + 6], s[off + 7])
}

/// The number whose little-endian base-256 digits are the `n` bytes of `s`
/// starting at `off`: `s[off] + 256 s[off + 1] + ... + 256^(n-1) s[off + n - 1]`.
pub open spec fn le_bytes_value(s: Seq<u8>, off: int, n: nat) -> int
    decreases n,
{
    if n == 0 {
        0
    } else {
        s[off] as int + 256 * le_bytes_value(s, off + 1, (n - 1) as nat)
    }
}

/// Reading back the bytes of a word gives the word.
pub proof fn lemma_u64_bytes_roundtrip(v: u64)
    ensures
        u64_from_bytes(u64_byte(v, 0), u64_byte(v, 1), u64_byte(v, 2), u64_byte(v, 3),
            u64_byte(v, 4), u64_byte(v, 5), u64_byte(v, 6), u64_byte(v, 7)) == v,
{
    assert((v as u8 as u64) | (((v >> 8u64) as u8 as u64) << 8u64) | (((v >> 16u64) as u8 as u64) << 16u64)
        | (((v >> 24u64) as u8 as u64) << 24u64) | (((v >> 32u64) as u8 as u64) << 32u64)
        | (((v >> 40u64) as u8 as u64) << 40u64) | (((v >> 48u64) as u8 as u64) << 48u64)
        | (((v >> 56u64) as u8 as u64) << 56u64) == v) by (bit_vector);
}

/// The canonical residue of a coefficient.
pub open spec fn modq(c: int) -> int {
    c % q()
}

/// Serialization of a polynomial: coefficient `i` reduced modulo q occupies
/// bytes `8 i .. 8 i + 8`, little-endian.
pub open spec fn poly_tobytes_spec(a: Seq<int>) -> Seq<u8> {
    Seq::new(2048, |p: int| u64_byte(modq(a[p / 8]) as u64, p % 8))
}

/// De-serialization of the 2048 bytes at offset `off`: each coefficient is the
/// little-endian word at `off + 8 i`.
pub open spec fn poly_frombytes_spec(s: Seq<u8>, off: int) -> Seq<int> {
    Seq::new(256, |i: int| le_u64_at(s, off + 8 * i) as int)
}

/// One coefficient read back from its serialization.
proof fn lemma_poly_bytes_roundtrip_at(a: Seq<int>, i: int)
    requires
        a.len() == 256,
        0 <= i < 256,
        0 <= a[i] < q(),
    ensures
        le_u64_at(poly_tobytes_spec(a), 8 * i) as int == a[i],
{
    let b = poly_tobytes_spec(a);
    lemma_constants();
    lemma_small_mod(a[i] as nat, q() as nat);
    let v = modq(a[i]) as u64;
    assert((8 * i) / 8 == i && (8 * i) % 8 == 0);
    assert((8 * i + 1) / 8 == i && (8 * i + 1) % 8 == 1);
    assert((8 * i + 2) / 8 == i && (8 * i + 2) % 8 == 2);
    assert((8 * i + 3) / 8 == i && (8 * i + 3) % 8 == 3);
    assert((8 * i + 4) / 8 == i && (8 * i + 4) % 8 == 4);
    assert((8 * i + 5) / 8 == i && (8 * i + 5) % 8 == 5);
    assert((8 * i + 6) / 8 == i && (8 * i + 6) % 8 == 6);
    assert((8 * i + 7) / 8 == i && (8 * i + 7) % 8 == 7);
    assert(b[8 * i] == u64_byte(v, 0));
    assert(b[8 * i + 1] == u64_byte(v, 1));
    assert(b[8 * i + 2] == u64_byte(v, 2));
    assert(b[8 * i + 3] == u64_byte(v, 3));
    assert(b[8 * i + 4] == u64_byte(v, 4));
    assert(b[8 * i + 5] == u64_byte(v, 5));
    assert(b[8 * i + 6] == u64_byte(v, 6));
    assert(b[8 * i + 7] == u64_byte(v, 7));
    lemma_u64_bytes_roundtrip(v);
}

/// De-serialization inverts serialization on canonical coefficients.
pub proof fn lemma_poly_bytes_roundtrip(a: Seq<int>)
    requires
        a.len() == 256,
        forall|i: int| 0 <= i < 256 ==> 0 <= #[trigger] a[i] < q(),
    ensures
        poly_frombytes_spec(poly_tobytes_spec(a), 0) == a,
{
    let b = poly_tobytes_spec(a);
    assert forall|i: int| 0 <= i < 256 implies #[trigger] poly_frombytes_spec(b, 0)[i] == a[i] by {
        lemma_poly_bytes_roundtrip_at(a, i);
    }
    assert(poly_frombytes_spec(b, 0) =~= a);
}

/// The bytes of a word read from eight bytes are those bytes.
proof fn lemma_bytes_u64_roundtrip(b0: u8, b1: u8, b2: u8, b3: u8, b4: u8, b5: u8, b6: u8, b7: u8)
    ensures
        u64_byte(u64_from_bytes(b0, b1, b2, b3, b4, b5, b6, b7), 0) == b0,
        u64_byte(u64_from_bytes(b0, b1, b2, b3, b4, b5, b6, b7), 1) == b1,
        u64_byte(u64_from_bytes(b0, b1, b2, b3, b4, b5, b6, b7), 2) == b2,
        u64_byte(u64_from_bytes(b0, b1, b2, b3, b4, b5, b6, b7), 3) == b3,
        u64_byte(u64_from_bytes(b0, b1, b2, b3, b4, b5, b6, b7), 4) == b4,
        u64_byte(u64_from_bytes(b0, b1, b2, b3, b4, b5, b6, b7), 5) == b5,
        u64_byte(u64_from_bytes(b0, b1, b2, b3, b4, b5, b6, b7), 6) == b6,
        u64_byte(u64_from_bytes(b0, b1, b2, b3, b4, b5, b6, b7), 7) == b7,
{
    let v = u64_from_bytes(b0, b1, b2, b3, b4, b5, b6, b7);
    assert(v == (b0 as u64) | ((b1 as u64) << 8u64) | ((b2 as u64) << 16u64) | ((b3 as u64) << 24u64)
        | ((b4 as u64) << 32u64) | ((b5 as u64) << 40u64) | ((b6 as u64) << 48u64) | ((b7 as u64) << 56u64));
    assert(v == (b0 as u64) | ((b1 as u64) << 8u64) | ((b2 as u64) << 16u64) | ((b3 as u64) << 24u64)
        | ((b4 as u64) << 32u64) | ((b5 as u64) << 40u64) | ((b6 as u64) << 48u64) | ((b7 as u64) << 56u64)
        ==> (v as u8 == b0 && (v >> 8u64) as u8 == b1 && (v >> 16u64) as u8 == b2 && (v >> 24u64) as u8 == b3
            && (v >> 32u64) as u8 == b4 && (v >> 40u64) as u8 == b5 && (v >> 48u64) as u8 == b6
            && (v >> 56u64) as u8 == b7)) by (bit_vector);
}

/// Serializing de-serialized bytes gives the bytes back if and only if every
/// 8-byte little-endian word of them is below q.
pub proof fn lemma_poly_bytes_reencode(x: Seq<u8>)
    requires
        x.len() >= 2048,
    ensures
        (poly_tobytes_spec(poly_frombytes_spec(x, 0)) == x.subrange(0, 2048))
            <==> (forall|i: int| 0 <= i < 256 ==> (#[trigger] le_u64_at(x, 8 * i) as int) < q()),
{
    lemma_constants();
    let a = poly_frombytes_spec(x, 0);
    let y = poly_tobytes_spec(a);
    if forall|i: int| 0 <= i < 256 ==> (#[trigger] le_u64_at(x, 8 * i) as int) < q() {
        assert forall|p: int| 0 <= p < 2048 implies #[trigger] y[p] == x.subrange(0, 2048)[p] by {
            let i = p / 8;
            let w = le_u64_at(x, 8 * i);
            assert(p == 8 * i + p % 8);
            lemma_small_mod(w as nat, q() as nat);
            assert(modq(a[i]) as u64 == w);
            lemma_bytes_u64_roundtrip(x[8 * i], x[8 * i + 1], x[8 * i + 2], x[8 * i + 3],
                x[8 * i + 4], x[8 * i + 5], x[8 * i + 6], x[8 * i + 7]);
        }
        assert(y =~= x.subrange(0, 2048));
    }
    if y == x.subrange(0, 2048) {
        assert forall|i: int| 0 <= i < 256 implies (#[trigger] le_u64_at(x, 8 * i) as int) < q() by {
            let w = le_u64_at(x, 8 * i);
            let v = modq(w as int) as u64;
            lemma_mod_bound(w as int, q());
            assert((8 * i) / 8 == i && (8 * i) % 8 == 0);
            assert(y[8 * i] == x.subrange(0, 2048)[8 * i]);
            assert(x[8 * i] == u64_byte(v, 0));
            assert((8 * i + 1) / 8 == i && (8 * i + 1) % 8 == 1);
            assert(y[8 * i + 1] == x.subrange(0, 2048)[8 * i + 1]);
            assert(x[8 * i + 1] == u64_byte(v, 1));
            assert((8 * i + 2) / 8 == i && (8 * i + 2) % 8 == 2);
            assert(y[8 * i + 2] == x.subrange(0, 2048)[8 * i + 2]);
            assert(x[8 * i + 2] == u64_byte(v, 2));
            assert((8 * i + 3) / 8 == i && (8 * i + 3) % 8 == 3);
            assert(y[8 * i + 3] == x.subrange(0, 2048)[8 * i + 3]);
            assert(x[8 * i + 3] == u64_byte(v, 3));
            assert((8 * i + 4) / 8 == i && (8 * i + 4) % 8 == 4);
            assert(y[8 * i + 4] == x.subrange(0, 2048)[8 * i + 4]);
            assert(x[8 * i + 4] == u64_byte(v, 4));
            assert((8 * i + 5) / 8 == i && (8 * i + 5) % 8 == 5);
            assert(y[8 * i + 5] == x.subrange(0, 2048)[8 * i + 5]);
            assert(x[8 * i + 5] == u64_byte(v, 5));
            assert((8 * i + 6) / 8 == i && (8 * i + 6) % 8 == 6);
            assert(y[8 * i + 6] == x.subrange(0, 2048)[8 * i + 6]);
            assert(x[8 * i + 6] == u64_byte(v, 6));
            assert((8 * i + 7) / 8 == i && (8 * i + 7) % 8 == 7);
            assert(y[8 * i + 7] == x.subrange(0, 2048)[8 * i + 7]);
            assert(x[8 * i + 7] == u64_byte(v, 7));
            lemma_u64_bytes_roundtrip(v);
        }
    }
}

/// The value of eight little-endian bytes as a number.
pub proof fn lemma_u64_from_bytes_value(b0: u8, b1: u8, b2: u8, b3: u8, b4: u8, b5: u8, b6: u8, b7: u8)
    ensures
        u64_from_bytes(b0, b1, b2, b3, b4, b5, b6, b7) as int == b0 as int + 0x100 * (b1 as int)
            + 0x1_0000 * (b2 as int) + 0x100_0000 * (b3 as int) + 0x1_0000_0000 * (b4 as int)
            + 0x100_0000_0000 * (b5 as int) + 0x1_0000_0000_0000 * (b6 as int)
            + 0x100_0000_0000_0000 * (b7 as int),
{
    let (c0, c1, c2, c3, c4, c5, c6, c7) = (b0 as u64, b1 as u64, b2 as u64, b3 as u64, b4 as u64, b5 as u64,
        b6 as u64, b7 as u64);
    assert(c0 < 256 && c1 < 256 && c2 < 256 && c3 < 256 && c4 < 256 && c5 < 256 && c6 < 256 && c7 < 256
        ==> c0 | (c1 << 8u64) | (c2 << 16u64) | (c3 << 24u64) | (c4 << 32u64) | (c5 << 40u64) | (c6 << 48u64)
            | (c7 << 56u64) == c0 + 0x100 * c1 + 0x1_0000 * c2 + 0x100_0000 * c3 + 0x1_0000_0000 * c4
            + 0x100_0000_0000 * c5 + 0x1_0000_0000_0000 * c6 + 0x100_0000_0000_0000 * c7) by (bit_vector);
}

/// Serializes `a` into `r[off .. off + 2048]`.
pub(crate) fn poly_tobytes_at(r: &mut [u8], off: usize, a: &Poly)
    requires
        off + 2048 <= old(r)@.len(),
    ensures
        final(r)@.len() == old(r)@.len(),
        forall|p: int| 0 <= p < 2048 ==> #[trigger] final(r)@[off + p] == poly_tobytes_spec(a@)[p],
        forall|p: int| 0 <= p < final(r)@.len() && !(off <= p < off + 2048) ==> #[trigger] final(r)@[p] == old(r)@[p],
{
    proof { lemma_constants(); }
    let ghost r0 = r@;
    let rlen = r.len();
    let mut i: usize = 0;
    while i < KYBER_N
        invariant
            i <= 256,
            rlen == r@.len(),
            off + 2048 <= r@.len(),
            r@.len() == r0.len(),
            forall|p: int| 0 <= p < 8 * i ==> #[trigger] r@[off + p] == poly_tobytes_spec(a@)[p],
            forall|p: int| 0 <= p < r@.len() && !(off <= p < off + 8 * i) ==> #[trigger] r@[p] == r0[p],
        decreases 256 - i,
    {
        let mut v = a.coeffs[i] % (KYBER_Q as i128);
        if v < 0 {
            v = v + KYBER_Q as i128;
        }
        proof {
            let c = a.coeffs@[i as int] as int;
            lemma_fundamental_div_mod(c, q());
            assert(c == (c / q()) * q() + c % q()) by { lemma_mul_is_commutative(c / q(), q()); }
            assert(v as int == modq(c)) by {
                let k = (c - v) / q();
                lemma_mod_bound(c, q());
                // Rust's remainder truncates: both are congruent to c and lie in [0, q)
                assert((c - v as int) % q() == 0) by {
                    lemma_fundamental_div_mod(c, q());
                }
                lemma_fundamental_div_mod(c - v as int, q());
                let k2 = (c - v as int) / q();
                assert(c == v as int + k2 * q()) by { lemma_mul_is_commutative(k2, q()); }
                lemma_mod_multiples_vanish(k2, v as int, q());
                assert(q() * k2 + v as int == c) by { lemma_mul_is_commutative(k2, q()); }
                lemma_small_mod(v as nat, q() as nat);
            }
        }
        let w = v as u64;
        let o = off + 8 * i;
        r[o] = w as u8;
        r[o + 1] = (w >> 8u64) as u8;
        r[o + 2] = (w >> 16u64) as u8;
        r[o + 3] = (w >> 24u64) as u8;
        r[o + 4] = (w >> 32u64) as u8;
        r[o + 5] = (w >> 40u64) as u8;
        r[o + 6] = (w >> 48u64) as u8;
        r[o + 7] = (w >> 56u64) as u8;
        proof {
            assert forall|p: int| 0 <= p < 8 * (i + 1) implies #[trigger] r@[off + p] == poly_tobytes_spec(a@)[p] by {
                if p >= 8 * i {
                    assert(p / 8 == i as int);
                    assert(a@[i as int] == a.coeffs@[i as int] as int);
                }
            }
        }
        i = i + 1;
    }
}

/// Name:  poly_tobytes
///
/// Description: Serialization of a polynomial
///
/// Arguments:   - [u8] r: output byte array (needs space for KYBER_POLYBYTES bytes)
///  - const poly *a:  input polynomial
pub fn poly_tobytes(r: &mut [u8], a: Poly)
    requires
        old(r)@.len() >= KYBER_POLYBYTES,
    ensures
        final(r)@.len() == old(r)@.len(),
        final(r)@.subrange(0, 2048) == poly_tobytes_spec(a@),
        final(r)@.subrange(2048, final(r)@.len() as int) == old(r)@.subrange(2048, old(r)@.len() as int),
{
    poly_tobytes_at(r, 0, &a);
    assert forall|p: int| 0 <= p < 2048 implies #[trigger] r@.subrange(0, 2048)[p] == poly_tobytes_spec(a@)[p] by {
        assert(r@[0 + p] == poly_tobytes_spec(a@)[p]);
    }
    assert(r@.subrange(0, 2048) =~= poly_tobytes_spec(a@));
    assert(r@.subrange(2048, r@.len() as int) =~= old(r)@.subrange(2048, old(r)@.len() as int));
}

/// Name:  poly_compress
///
/// Description: Compression and subsequent serialization of a polynomial;
///  with the wide modulus no compression takes place.
pub fn poly_compress(r: &mut [u8], a: Poly)
    requires
        old(r)@.len() >= KYBER_POLYBYTES,
    ensures
        final(r)@.len() == old(r)@.len(),
        final(r)@.subrange(0, 2048) == poly_tobytes_spec(a@),
        final(r)@.subrange(2048, final(r)@.len() as int) == old(r)@.subrange(2048, old(r)@.len() as int),
{
    poly_tobytes(r, a);
}

/// Reads the polynomial stored at `a[off .. off + 2048]` into `r`.
pub(crate) fn poly_frombytes_at(r: &mut Poly, a: &[u8], off: usize)
    requires
        off + 2048 <= a@.len(),
    ensures
        final(r)@ == poly_frombytes_spec(a@, off as int),
{
    let alen = a.len();
    let mut i: usize = 0;
    while i < KYBER_N
        invariant
            i <= 256,
            alen == a@.len(),
            off + 2048 <= a@.len(),
            forall|j: int| 0 <= j < i ==> #[trigger] r.coeffs@[j] as int == poly_frombytes_spec(a@, off as int)[j],
        decreases 256 - i,
    {
        let o = off + 8 * i;
        let w: u64 = (a[o] as u64) | ((a[o + 1] as u64) << 8u64) | ((a[o + 2] as u64) << 16u64)
            | ((a[o + 3] as u64) << 24u64) | ((a[o + 4] as u64) << 32u64) | ((a[o + 5] as u64) << 40u64)
            | ((a[o + 6] as u64) << 48u64) | ((a[o + 7] as u64) << 56u64);
        r.coeffs[i] = w as i128;
        i = i + 1;
    }
    assert(r@ =~= poly_frombytes_spec(a@, off as int));
}

/// Name:  poly_frombytes
///
/// Description: De-serialization of a polynomial;
///  inverse of poly_tobytes
///
/// Arguments:   - poly *r:  output polynomial
///  - const [u8] a: input byte array (of KYBER_POLYBYTES bytes)
pub fn poly_frombytes(r: &mut Poly, a: &[u8])
    requires
        a@.len() >= KYBER_POLYBYTES,
    ensures
        final(r)@ == poly_frombytes_spec(a@, 0),
{
    poly_frombytes_at(r, a, 0);
}

/// Name:  poly_decompress
///
/// Description: De-serialization and subsequent decompression of a polynomial;
///  the inverse of poly_compress.
pub fn poly_decompress(r: &mut Poly, a: &[u8])
    requires
        a@.len() >= KYBER_POLYBYTES,
    ensures
        final(r)@ == poly_frombytes_spec(a@, 0),
{
    poly_frombytes(r, a);
}

// ---------------------------------------------------------------------------
// Coefficient-wise arithmetic.

/// Name:  poly_reduce
///
/// Description: Reduces every coefficient to its canonical residue in [0, q).
///
/// Arguments:   - poly *r:   input/output polynomial
pub fn poly_reduce(r: &mut Poly)
    ensures
        forall|i: int| 0 <= i < 256 ==> #[trigger] final(r)@[i] == old(r)@[i] % q(),
{
    let ghost r0 = r@;
    let mut i: usize = 0;
    while i < KYBER_N
        invariant
            i <= 256,
            r0.len() == 256,
            forall|j: int| 0 <= j < i ==> #[trigger] r.coeffs@[j] as int == r0[j] % q(),
            forall|j: int| i <= j < 256 ==> #[trigger] r.coeffs@[j] as int == r0[j],
        decreases 256 - i,
    {
        r.coeffs[i] = barrett_reduce(r.coeffs[i]);
        i = i + 1;
    }
}

/// Name:  poly_add
///
/// Description: Add two polynomials; no modular reduction is performed
///
/// Arguments: - poly *r:   input/output polynomial (first summand)
///  - const poly *b: second summand
pub fn poly_add(r: &mut Poly, b: &Poly)
    requires
        forall|i: int| 0 <= i < 256 ==> i128::MIN <= #[trigger] old(r)@[i] + b@[i] <= i128::MAX,
    ensures
        forall|i: int| 0 <= i < 256 ==> #[trigger] final(r)@[i] == old(r)@[i] + b@[i],
{
    let ghost r0 = r@;
    let mut i: usize = 0;
    while i < KYBER_N
        invariant
            i <= 256,
            forall|j: int| 0 <= j < 256 ==> i128::MIN <= #[trigger] r0[j] + b@[j] <= i128::MAX,
            r0.len() == 256,
            forall|j: int| 0 <= j < i ==> #[trigger] r.coeffs@[j] as int == r0[j] + b@[j],
            forall|j: int| i <= j < 256 ==> #[trigger] r.coeffs@[j] as int == r0[j],
        decreases 256 - i,
    {
        proof { assert(r0[i as int] + b@[i as int] <= i128::MAX); }
        r.coeffs[i] = r.coeffs[i] + b.coeffs[i];
        i = i + 1;
    }
}

/// Name:  poly_sub
///
/// Description: Subtract two polynomials in place, `r = r - a`; no modular
///  reduction is performed
///
/// Arguments: - poly *r:   input/output polynomial (minuend)
///  - const poly *a: subtrahend
pub fn poly_sub(r: &mut Poly, a: &Poly)
    requires
        forall|i: int| 0 <= i < 256 ==> i128::MIN <= #[trigger] old(r)@[i] - a@[i] <= i128::MAX,
    ensures
        forall|i: int| 0 <= i < 256 ==> #[trigger] final(r)@[i] == old(r)@[i] - a@[i],
{
    let ghost r0 = r@;
    let mut i: usize = 0;
    while i < KYBER_N
        invariant
            i <= 256,
            forall|j: int| 0 <= j < 256 ==> i128::MIN <= #[trigger] r0[j] - a@[j] <= i128::MAX,
            r0.len() == 256,
            forall|j: int| 0 <= j < i ==> #[trigger] r.coeffs@[j] as int == r0[j] - a@[j],
            forall|j: int| i <= j < 256 ==> #[trigger] r.coeffs@[j] as int == r0[j],
        decreases 256 - i,
    {
        proof { assert(r0[i as int] - a@[i as int] >= i128::MIN); }
        r.coeffs[i] = r.coeffs[i] - a.coeffs[i];
        i = i + 1;
    }
}

/// (2^64)^2 mod q.
const MONT_R2: u128 = 12297899168285967704u128;

/// Montgomery reduction of `a 2^128 mod q` is `c 2^64 mod q` when `a` is the
/// residue of `c`.
proof fn lemma_tomont_value(c: int, a: int)
    requires
        a == c % q(),
    ensures
        (a * (MONT_R2 as int) * mont_r_inv()) % q() == (c * mont_r()) % q(),
{
    lemma_constants();
    let qq = q();
    let k = (MONT_R2 as int) * mont_r_inv();
    assert((12297899168285967704int * 1271475462236046151int) % 13835058055275898369int
        == 4611686018433653247int);
    assert(18446744073709551616int % 13835058055275898369int == 4611686018433653247int);
    assert(k % qq == mont_r() % qq);
    assert(a * (MONT_R2 as int) * mont_r_inv() == a * k) by (nonlinear_arith)
        requires k == (MONT_R2 as int) * mont_r_inv();
    lemma_mul_mod_noop(a, k, qq);
    lemma_mul_mod_noop(c, mont_r(), qq);
    lemma_mod_twice(c, qq);
}

/// The product fed to the Montgomery reduction stays below q 2^64.
proof fn lemma_tomont_bound(a: int)
    requires
        0 <= a < q(),
    ensures
        a * (MONT_R2 as int) < q() * mont_r(),
        a * (MONT_R2 as int) <= u128::MAX,
{
    lemma_constants();
    assert(a * (MONT_R2 as int) < q() * mont_r()) by (nonlinear_arith)
        requires a < q(), (MONT_R2 as int) < q(), q() < mont_r(), 0 <= a;
    assert(q() * mont_r() <= u128::MAX);
}

/// Name:  poly_tomont
///
/// Description: Inplace conversion of all coefficients of a polynomial
///  from normal domain to Montgomery domain: `c 2^64 mod q`
///
/// Arguments:   - poly *r:   input/output polynomial
pub fn poly_tomont(r: &mut Poly)
    ensures
        forall|i: int| 0 <= i < 256 ==> #[trigger] final(r)@[i] == (old(r)@[i] * mont_r()) % q(),
{
    let ghost r0 = r@;
    let mut i: usize = 0;
    while i < KYBER_N
        invariant
            i <= 256,
            r0.len() == 256,
            forall|j: int| 0 <= j < i ==> #[trigger] r.coeffs@[j] as int == (r0[j] * mont_r()) % q(),
            forall|j: int| i <= j < 256 ==> #[trigger] r.coeffs@[j] as int == r0[j],
        decreases 256 - i,
    {
        let c = r.coeffs[i];
        let a = barrett_reduce(c) as u128;
        proof {
            lemma_tomont_bound(a as int);
            lemma_tomont_value(c as int, a as int);
        }
        r.coeffs[i] = montgomery_reduce(a * MONT_R2);
        i = i + 1;
    }
}

/// Convert Montgomery domain coefficients back to normal domain in place:
/// every coefficient `c` becomes the Montgomery reduction of `c` read as an
/// unsigned 128-bit word, which is `c 2^-64 mod q` whenever `0 <= c < q 2^64`.
pub fn poly_frommont(r: &mut Poly)
    ensures
        forall|i: int| 0 <= i < 256 ==> #[trigger] final(r)@[i] == montgomery_reduce_spec((old(r).coeffs@[i] as u128) as int),
        forall|i: int| 0 <= i < 256 && 0 <= old(r)@[i] < q() * mont_r() ==> #[trigger] final(r)@[i] == (old(r)@[i] * mont_r_inv()) % q(),
{
    let ghost r0 = *r;
    let mut i: usize = 0;
    while i < KYBER_N
        invariant
            i <= 256,
            forall|j: int| 0 <= j < i ==> #[trigger] r.coeffs@[j] as int == montgomery_reduce_spec((r0.coeffs@[j] as u128) as int),
            forall|j: int| 0 <= j < i && 0 <= r0.coeffs@[j] < q() * mont_r() ==> #[trigger] r.coeffs@[j] as int == (r0.coeffs@[j] * mont_r_inv()) % q(),
            forall|j: int| i <= j < 256 ==> #[trigger] r.coeffs@[j] == r0.coeffs@[j],
        decreases 256 - i,
    {
        let c = r.coeffs[i];
        r.coeffs[i] = montgomery_reduce(c as u128);
        i = i + 1;
    }
}

// ---------------------------------------------------------------------------
// Messages.

/// (q + 1) / 2, the coefficient that encodes a one bit.
pub open spec fn half_q_spec() -> int {
    (q() + 1) / 2
}

/// Bit `k` of a byte string (bit `k % 8` of byte `k / 8`).
pub open spec fn msg_bit(msg: Seq<u8>, k: int) -> u8 {
    (msg[k / 8] >> ((k % 8) as u8)) & 1u8
}

/// Encoding of a 32-byte message: bit `k` becomes coefficient `k`, a one
/// bit as (q + 1) / 2 and a zero bit as 0.
pub open spec fn poly_frommsg_spec(msg: Seq<u8>) -> Seq<int> {
    Seq::new(256, |k: int| if msg_bit(msg, k) == 1u8 { half_q_spec() } else { 0 })
}

/// Name:  poly_frommsg
///
/// Description: Convert `KYBER_SYMBYTES`-byte message to polynomial
///
/// Arguments:   - poly *r:    output polynomial
///  - const [u8] msg: input message (of length KYBER_SYMBYTES)
pub fn poly_frommsg(r: &mut Poly, msg: &[u8])
    requires
        msg@.len() >= KYBER_SYMBYTES,
    ensures
        final(r)@ == poly_frommsg_spec(msg@),
{
    let half_q: i128 = 6917529027637949185i128;
    proof { lemma_constants(); assert(half_q == half_q_spec()); }
    let mut i: usize = 0;
    while i < KYBER_N / 8
        invariant
            i <= 32,
            msg@.len() >= 32,
            half_q == half_q_spec(),
            forall|k: int| 0 <= k < 8 * i ==> #[trigger] r.coeffs@[k] as int == poly_frommsg_spec(msg@)[k],
        decreases 32 - i,
    {
        let mut j: u8 = 0;
        while j < 8
            invariant
                i < 32,
                j <= 8,
                msg@.len() >= 32,
                half_q == half_q_spec(),
                forall|k: int| 0 <= k < 8 * i + j ==> #[trigger] r.coeffs@[k] as int == poly_frommsg_spec(msg@)[k],
            decreases 8 - j,
        {
            let bit = (msg[i] >> j) & 1u8;
            r.coeffs[8 * i + j as usize] = if bit == 1 { half_q } else { 0 };
            proof {
                let k = 8 * i + j;
                assert(k / 8 == i as int && k % 8 == j as int);
            }
            j = j + 1;
        }
        i = i + 1;
    }
    assert(r@ =~= poly_frommsg_spec(msg@));
}

/// The message bit that a coefficient decodes to: 1 when its residue is
/// closer to (q + 1) / 2 than to 0.
pub open spec fn decode_bit(c: int) -> int {
    ((2 * (c % q()) + q() / 2) / q()) % 2
}

/// The first `n` decoded bits of byte `i` of the message, as a number.
pub open spec fn msg_byte_bits(a: Seq<int>, i: int, n: nat) -> int
    decreases n,
{
    if n == 0 {
        0
    } else {
        msg_byte_bits(a, i, (n - 1) as nat) + decode_bit(a[8 * i + n - 1]) * crate::reference::ntt::two_pow((n - 1) as nat)
    }
}

/// Decoding of a polynomial to 32 bytes: bit `j` of byte `i` is the decoded
/// bit of coefficient `8 i + j`.
pub open spec fn poly_tomsg_spec(a: Seq<int>) -> Seq<u8> {
    Seq::new(32, |i: int| msg_byte_bits(a, i, 8) as u8)
}

/// Setting bit `j` of a byte whose higher bits are clear adds `2^j`.
proof fn lemma_or_bit(m: u8, t: u8, j: u8)
    requires
        j < 8,
        t <= 1,
        (m as int) < crate::reference::ntt::two_pow(j as nat),
    ensures
        (m | (t << j)) as int == m as int + t as int * crate::reference::ntt::two_pow(j as nat),
        (m as int) + t as int * crate::reference::ntt::two_pow(j as nat) < crate::reference::ntt::two_pow((j + 1) as nat),
{
    reveal_with_fuel(crate::reference::ntt::two_pow, 9);
    assert(crate::reference::ntt::two_pow(j as nat) == (1u8 << j) as int) by {
        if j == 0 {} else if j == 1 {} else if j == 2 {} else if j == 3 {}
        else if j == 4 {} else if j == 5 {} else if j == 6 {} else {}
        assert(1u8 << 0u8 == 1u8) by (bit_vector);
        assert(1u8 << 1u8 == 2u8) by (bit_vector);
        assert(1u8 << 2u8 == 4u8) by (bit_vector);
        assert(1u8 << 3u8 == 8u8) by (bit_vector);
        assert(1u8 << 4u8 == 16u8) by (bit_vector);
        assert(1u8 << 5u8 == 32u8) by (bit_vector);
        assert(1u8 << 6u8 == 64u8) by (bit_vector);
        assert(1u8 << 7u8 == 128u8) by (bit_vector);
    }
    assert(m < (1u8 << j) && t <= 1 && j < 8 ==> (m | (t << j)) == m + t * (1u8 << j)) by (bit_vector);
    let tp = crate::reference::ntt::two_pow(j as nat);
    assert(crate::reference::ntt::two_pow((j + 1) as nat) == 2 * tp);
    assert(t as int * tp <= tp) by (nonlinear_arith) requires t <= 1, tp >= 0;
}

/// Coefficient `c` rounds to a one bit: its residue in [0, q) is closer to
/// q / 2 than to 0 or q, i.e. lies in (q / 4, 3 (q / 4)].
pub open spec fn rounds_to_one(c: int) -> int {
    if q() / 4 < c % q() && c % q() <= 3 * (q() / 4) { 1 } else { 0 }
}

proof fn lemma_decode_bit_rounds(c: int)
    ensures
        decode_bit(c) == rounds_to_one(c),
{
    lemma_constants();
    let qq = q();
    let a = qq / 4;
    let r = c % qq;
    lemma_mod_bound(c, qq);
    assert(qq == 4 * a + 1);
    assert(qq / 2 == 2 * a);
    let x = 2 * r + 2 * a;
    if r <= a {
        lemma_fundamental_div_mod_converse(x, qq, 0, x);
    } else if r <= 3 * a {
        lemma_fundamental_div_mod_converse(x, qq, 1, x - qq);
    } else {
        lemma_fundamental_div_mod_converse(x, qq, 2, x - 2 * qq);
    }
}

/// Decoding rounds each coefficient: byte `i` of the message has bit `j` set
/// exactly when the residue modulo q of coefficient `8 i + j` lies in
/// (q / 4, 3 (q / 4)], i.e. is closer to q / 2 than to 0.
pub proof fn lemma_tomsg_rounds(a: Seq<int>, i: int)
    requires
        0 <= i < 32,
    ensures
        poly_tomsg_spec(a)[i] as int == rounds_to_one(a[8 * i]) + 2 * rounds_to_one(a[8 * i + 1])
            + 4 * rounds_to_one(a[8 * i + 2]) + 8 * rounds_to_one(a[8 * i + 3])
            + 16 * rounds_to_one(a[8 * i + 4]) + 32 * rounds_to_one(a[8 * i + 5])
            + 64 * rounds_to_one(a[8 * i + 6]) + 128 * rounds_to_one(a[8 * i + 7]),
        forall|j: u8| j < 8 ==> ((#[trigger] (poly_tomsg_spec(a)[i] >> j)) & 1u8) as int
            == rounds_to_one(a[8 * i + j]),
{
    reveal_with_fuel(msg_byte_bits, 9);
    reveal_with_fuel(crate::reference::ntt::two_pow, 9);
    lemma_decode_bit_rounds(a[8 * i]);
    lemma_decode_bit_rounds(a[8 * i + 1]);
    lemma_decode_bit_rounds(a[8 * i + 2]);
    lemma_decode_bit_rounds(a[8 * i + 3]);
    lemma_decode_bit_rounds(a[8 * i + 4]);
    lemma_decode_bit_rounds(a[8 * i + 5]);
    lemma_decode_bit_rounds(a[8 * i + 6]);
    lemma_decode_bit_rounds(a[8 * i + 7]);
    let r0 = rounds_to_one(a[8 * i]) as u8;
    let r1 = rounds_to_one(a[8 * i + 1]) as u8;
    let r2 = rounds_to_one(a[8 * i + 2]) as u8;
    let r3 = rounds_to_one(a[8 * i + 3]) as u8;
    let r4 = rounds_to_one(a[8 * i + 4]) as u8;
    let r5 = rounds_to_one(a[8 * i + 5]) as u8;
    let r6 = rounds_to_one(a[8 * i + 6]) as u8;
    let r7 = rounds_to_one(a[8 * i + 7]) as u8;
    let mb = msg_byte_bits(a, i, 8);
    assert(msg_byte_bits(a, i, 1) == decode_bit(a[8 * i]));
    assert(msg_byte_bits(a, i, 2) == msg_byte_bits(a, i, 1) + decode_bit(a[8 * i + 1]) * 2);
    assert(msg_byte_bits(a, i, 3) == msg_byte_bits(a, i, 2) + decode_bit(a[8 * i + 2]) * 4);
    assert(msg_byte_bits(a, i, 4) == msg_byte_bits(a, i, 3) + decode_bit(a[8 * i + 3]) * 8);
    assert(msg_byte_bits(a, i, 5) == msg_byte_bits(a, i, 4) + decode_bit(a[8 * i + 4]) * 16);
    assert(msg_byte_bits(a, i, 6) == msg_byte_bits(a, i, 5) + decode_bit(a[8 * i + 5]) * 32);
    assert(msg_byte_bits(a, i, 7) == msg_byte_bits(a, i, 6) + decode_bit(a[8 * i + 6]) * 64);
    assert(mb == msg_byte_bits(a, i, 7) + decode_bit(a[8 * i + 7]) * 128);
    assert(0 <= mb < 256);
    let v = poly_tomsg_spec(a)[i];
    assert(v as int == mb);
    assert(v == r0 + 2 * r1 + 4 * r2 + 8 * r3 + 16 * r4 + 32 * r5 + 64 * r6 + 128 * r7);
    assert forall|j: u8| j < 8 implies ((#[trigger] (poly_tomsg_spec(a)[i] >> j)) & 1u8) as int
        == rounds_to_one(a[8 * i + j]) by {
        assert(r0 <= 1 && r1 <= 1 && r2 <= 1 && r3 <= 1 && r4 <= 1 && r5 <= 1 && r6 <= 1 && r7 <= 1
            && v == r0 + 2 * r1 + 4 * r2 + 8 * r3 + 16 * r4 + 32 * r5 + 64 * r6 + 128 * r7 ==>
            ((v >> 0u8) & 1u8) == r0 && ((v >> 1u8) & 1u8) == r1 && ((v >> 2u8) & 1u8) == r2
            && ((v >> 3u8) & 1u8) == r3 && ((v >> 4u8) & 1u8) == r4 && ((v >> 5u8) & 1u8) == r5
            && ((v >> 6u8) & 1u8) == r6 && ((v >> 7u8) & 1u8) == r7) by (bit_vector);
        if j == 0 {} else if j == 1 {} else if j == 2 {} else if j == 3 {}
        else if j == 4 {} else if j == 5 {} else if j == 6 {} else {}
    }
}

/// Decoding depends only on the coefficients' residues modulo q: adding
/// any multiples of q to the coefficients does not change the message.
pub proof fn lemma_tomsg_mod_q(a: Seq<int>, b: Seq<int>)
    requires
        forall|k: int| 0 <= k < 256 ==> #[trigger] a[k] % q() == b[k] % q(),
    ensures
        poly_tomsg_spec(a) == poly_tomsg_spec(b),
{
    assert forall|i: int| 0 <= i < 32 implies #[trigger] poly_tomsg_spec(a)[i] == poly_tomsg_spec(b)[i] by {
        lemma_tomsg_rounds(a, i);
        lemma_tomsg_rounds(b, i);
        assert(a[8 * i] % q() == b[8 * i] % q());
        assert(a[8 * i + 1] % q() == b[8 * i + 1] % q());
        assert(a[8 * i + 2] % q() == b[8 * i + 2] % q());
        assert(a[8 * i + 3] % q() == b[8 * i + 3] % q());
        assert(a[8 * i + 4] % q() == b[8 * i + 4] % q());
        assert(a[8 * i + 5] % q() == b[8 * i + 5] % q());
        assert(a[8 * i + 6] % q() == b[8 * i + 6] % q());
        assert(a[8 * i + 7] % q() == b[8 * i + 7] % q());
    }
    assert(poly_tomsg_spec(a) =~= poly_tomsg_spec(b));
}

/// Name:  poly_tomsg
///
/// Description: Convert polynomial to 32-byte message
///
/// Arguments:   - [u8] msg: output message
///  - const poly *a:  input polynomial
pub fn poly_tomsg(msg: &mut [u8], a: Poly)
    requires
        old(msg)@.len() >= KYBER_SYMBYTES,
    ensures
        final(msg)@.len() == old(msg)@.len(),
        final(msg)@.subrange(0, 32) == poly_tomsg_spec(a@),
        final(msg)@.subrange(32, final(msg)@.len() as int) == old(msg)@.subrange(32, old(msg)@.len() as int),
{
    let ghost m0 = msg@;
    let qq = KYBER_Q as i128;
    proof { lemma_constants(); }
    let mut i: usize = 0;
    while i < KYBER_N / 8
        invariant
            i <= 32,
            msg@.len() == m0.len(),
            m0.len() >= 32,
            qq as int == q(),
            forall|k: int| 0 <= k < i ==> #[trigger] msg@[k] == poly_tomsg_spec(a@)[k],
            forall|k: int| i <= k < msg@.len() && k >= 32 ==> #[trigger] msg@[k] == m0[k],
        decreases 32 - i,
    {
        msg[i] = 0;
        let mut j: u8 = 0;
        while j < 8
            invariant
                i < 32,
                j <= 8,
                msg@.len() == m0.len(),
                m0.len() >= 32,
                qq as int == q(),
                msg@[i as int] as int == msg_byte_bits(a@, i as int, j as nat),
                (msg@[i as int] as int) < crate::reference::ntt::two_pow(j as nat),
                forall|k: int| 0 <= k < i ==> #[trigger] msg@[k] == poly_tomsg_spec(a@)[k],
                forall|k: int| i < k < msg@.len() && k >= 32 ==> #[trigger] msg@[k] == m0[k],
            decreases 8 - j,
        {
            let mut t = a.coeffs[8 * i + j as usize] % qq;
            if t < 0 {
                t = t + qq;
            }
            let ghost c = a.coeffs@[8 * i + j as int] as int;
            proof {
                assert(t as int == c % q()) by {
                    lemma_fundamental_div_mod(c, q());
                    lemma_mod_bound(c, q());
                    lemma_fundamental_div_mod(c - t as int, q());
                    let k2 = (c - t as int) / q();
                    assert(c == t as int + k2 * q()) by { lemma_mul_is_commutative(k2, q()); }
                    lemma_mod_multiples_vanish(k2, t as int, q());
                    assert(q() * k2 + t as int == c) by { lemma_mul_is_commutative(k2, q()); }
                    lemma_small_mod(t as nat, q() as nat);
                }
            }
            let u = ((t * 2) + (qq / 2)) / qq;
            let bit = u & 1;
            proof {
                assert(0 <= u);
                assert(0 <= u ==> u & 1 == u % 2) by (bit_vector);
                assert(bit as int == decode_bit(c));
                reveal_with_fuel(crate::reference::ntt::two_pow, 2);
                lemma_or_bit(msg@[i as int], bit as u8, j);
                assert(a@[8 * i + j as int] == c);
            }
            msg[i] = msg[i] | ((bit as u8) << j);
            j = j + 1;
        }
        i = i + 1;
    }
    assert(msg@.subrange(0, 32) =~= poly_tomsg_spec(a@));
    assert(msg@.subrange(32, msg@.len() as int) =~= m0.subrange(32, m0.len() as int));
}

/// An encoded bit decodes to itself.
proof fn lemma_msg_bit_decode(msg: Seq<u8>, i: int, j: int)
    requires
        msg.len() >= 32,
        0 <= i < 32,
        0 <= j < 8,
    ensures
        decode_bit(poly_frommsg_spec(msg)[8 * i + j]) == ((msg[i] >> (j as u8)) & 1u8) as int,
{
    lemma_constants();
    assert(decode_bit(half_q_spec()) == 1);
    assert(decode_bit(0) == 0);
    assert((8 * i + j) / 8 == i && (8 * i + j) % 8 == j);
    let m = msg[i];
    let jj = j as u8;
    assert(((m >> jj) & 1u8) == 0u8 || ((m >> jj) & 1u8) == 1u8) by (bit_vector);
}

/// Decoding an encoded message gives the message back.
#[verifier::rlimit(30)]
pub proof fn lemma_msg_roundtrip(msg: Seq<u8>)
    requires
        msg.len() >= 32,
    ensures
        poly_tomsg_spec(poly_frommsg_spec(msg)) == msg.subrange(0, 32),
{
    lemma_constants();
    let p = poly_frommsg_spec(msg);
    assert(decode_bit(half_q_spec()) == 1);
    assert(decode_bit(0) == 0);
    assert forall|i: int| 0 <= i < 32 implies #[trigger] poly_tomsg_spec(p)[i] == msg[i] by {
        reveal_with_fuel(msg_byte_bits, 9);
        reveal_with_fuel(crate::reference::ntt::two_pow, 9);
        let m = msg[i];
        lemma_msg_bit_decode(msg, i, 0);
        lemma_msg_bit_decode(msg, i, 1);
        lemma_msg_bit_decode(msg, i, 2);
        lemma_msg_bit_decode(msg, i, 3);
        lemma_msg_bit_decode(msg, i, 4);
        lemma_msg_bit_decode(msg, i, 5);
        lemma_msg_bit_decode(msg, i, 6);
        lemma_msg_bit_decode(msg, i, 7);
        assert(decode_bit(p[8 * i]) == ((m >> 0u8) & 1u8) as int);
        assert(decode_bit(p[8 * i + 1]) == ((m >> 1u8) & 1u8) as int);
        assert(decode_bit(p[8 * i + 2]) == ((m >> 2u8) & 1u8) as int);
        assert(decode_bit(p[8 * i + 3]) == ((m >> 3u8) & 1u8) as int);
        assert(decode_bit(p[8 * i + 4]) == ((m >> 4u8) & 1u8) as int);
        assert(decode_bit(p[8 * i + 5]) == ((m >> 5u8) & 1u8) as int);
        assert(decode_bit(p[8 * i + 6]) == ((m >> 6u8) & 1u8) as int);
        assert(decode_bit(p[8 * i + 7]) == ((m >> 7u8) & 1u8) as int);
        assert(((m >> 0u8) & 1u8) as int + ((m >> 1u8) & 1u8) as int * 2 + ((m >> 2u8) & 1u8) as int * 4
            + ((m >> 3u8) & 1u8) as int * 8 + ((m >> 4u8) & 1u8) as int * 16 + ((m >> 5u8) & 1u8) as int * 32
            + ((m >> 6u8) & 1u8) as int * 64 + ((m >> 7u8) & 1u8) as int * 128 == m as int) by (bit_vector);
    }
    assert(poly_tomsg_spec(p) =~= msg.subrange(0, 32));
}

// ---------------------------------------------------------------------------
// Transforms and products.

/// The coefficients, which must be canonical residues, as machine words.
fn poly_to_words(a: &Poly) -> (w: [u64; KYBER_N])
    requires
        canonical(a@),
    ensures
        u64s_to_ints(w@) == a@,
        forall|i: int| 0 <= i < 256 ==> (#[trigger] w@[i] as int) < q(),
{
    let mut w = [0u64; KYBER_N];
    let mut i: usize = 0;
    while i < KYBER_N
        invariant
            i <= 256,
            canonical(a@),
            forall|j: int| 0 <= j < i ==> #[trigger] w@[j] as int == a@[j],
        decreases 256 - i,
    {
        proof { assert(0 <= a@[i as int] < q()); lemma_constants(); }
        w[i] = a.coeffs[i] as u64;
        i = i + 1;
    }
    assert(u64s_to_ints(w@) =~= a@);
    w
}

/// Stores machine words as the coefficients of `r`.
fn poly_from_words(r: &mut Poly, w: &[u64; KYBER_N])
    ensures
        final(r)@ == u64s_to_ints(w@),
{
    let mut i: usize = 0;
    while i < KYBER_N
        invariant
            i <= 256,
            forall|j: int| 0 <= j < i ==> #[trigger] r.coeffs@[j] as int == w@[j] as int,
        decreases 256 - i,
    {
        r.coeffs[i] = w[i] as i128;
        i = i + 1;
    }
    assert(r@ =~= u64s_to_ints(w@));
}

/// Name:  poly_ntt
///
/// Description: Computes negacyclic number-theoretic transform (NTT) of
///  a polynomial in place;
///  inputs assumed to be in normal order, output in bitreversed order
///
/// Arguments:   - Poly r: in/output polynomial
pub fn poly_ntt(r: &mut Poly)
    requires
        canonical(old(r)@),
    ensures
        final(r)@ == ntt_spec(old(r)@),
        canonical(final(r)@),
{
    let mut w = poly_to_words(r);
    ntt(&mut w);
    poly_from_words(r, &w);
    assert(canonical(r@)) by {
        assert forall|i: int| 0 <= i < 256 implies 0 <= #[trigger] r@[i] < q() by {
            assert(r@[i] == w@[i] as int);
        }
    }
}

/// Name:  poly_invntt_tomont
///
/// Description: Computes inverse of negacyclic number-theoretic transform (NTT) of
///  a polynomial in place;
///  inputs assumed to be in bitreversed order, output in normal order
///
/// Arguments:   - Poly a: in/output polynomial
pub fn poly_invntt_tomont(r: &mut Poly)
    requires
        canonical(old(r)@),
    ensures
        final(r)@ == invntt_spec(old(r)@),
        canonical(final(r)@),
{
    let mut w = poly_to_words(r);
    invntt(&mut w);
    poly_from_words(r, &w);
    assert(canonical(r@)) by {
        assert forall|i: int| 0 <= i < 256 implies 0 <= #[trigger] r@[i] < q() by {
            assert(r@[i] == w@[i] as int);
        }
    }
}

/// One product in a quadratic extension: `(a0 + a1 X)(b0 + b1 X)` modulo
/// `X^2 - zeta`, with Montgomery products.
pub open spec fn basemul_pair_spec(a0: int, a1: int, b0: int, b1: int, zeta: int) -> (int, int) {
    (
        (fqmul_spec(fqmul_spec(a1, b1), zeta) + fqmul_spec(a0, b0)) % q(),
        (fqmul_spec(a0, b1) + fqmul_spec(a1, b0)) % q(),
    )
}

/// Multiplication in the NTT domain: coefficients `4i, 4i+1` are multiplied
/// modulo `X^2 - zeta_(64+i)` and coefficients `4i+2, 4i+3` modulo
/// `X^2 + zeta_(64+i)`.
pub open spec fn poly_basemul_spec(a: Seq<int>, b: Seq<int>) -> Seq<int> {
    Seq::new(
        256,
        |k: int|
            {
                let i = k / 4;
                let z = zeta_spec(64 + i);
                if k % 4 < 2 {
                    let pr = basemul_pair_spec(a[4 * i], a[4 * i + 1], b[4 * i], b[4 * i + 1], z);
                    if k % 4 == 0 { pr.0 } else { pr.1 }
                } else {
                    let pr = basemul_pair_spec(a[4 * i + 2], a[4 * i + 3], b[4 * i + 2], b[4 * i + 3], (-z) % q());
                    if k % 4 == 2 { pr.0 } else { pr.1 }
                }
            },
    )
}

fn basemul_pair(a0: i128, a1: i128, b0: i128, b1: i128, zeta: i128) -> (res: (i128, i128))
    requires
        0 <= a0 < q(), 0 <= a1 < q(), 0 <= b0 < q(), 0 <= b1 < q(), 0 <= zeta < q(),
    ensures
        res.0 as int == basemul_pair_spec(a0 as int, a1 as int, b0 as int, b1 as int, zeta as int).0,
        res.1 as int == basemul_pair_spec(a0 as int, a1 as int, b0 as int, b1 as int, zeta as int).1,
{
    proof { lemma_constants(); }
    let t0 = fqmul(a1 as u64, b1 as u64);
    let t1 = fqmul(t0, zeta as u64);
    let r0 = barrett_reduce(t1 as i128 + fqmul(a0 as u64, b0 as u64) as i128);
    let r1 = barrett_reduce(fqmul(a0 as u64, b1 as u64) as i128 + fqmul(a1 as u64, b0 as u64) as i128);
    (r0, r1)
}

/// Name:  poly_basemul
///
/// Description: Multiplication of two polynomials in NTT domain
///
/// Arguments:   - poly *r:   output polynomial
///  - const poly *a: first input polynomial
///  - const poly *b: second input polynomial
pub fn poly_basemul(r: &mut Poly, a: &Poly, b: &Poly)
    requires
        canonical(a@),
        canonical(b@),
    ensures
        final(r)@ == poly_basemul_spec(a@, b@),
        canonical(final(r)@),
{
    proof { lemma_constants(); }
    let mut i: usize = 0;
    while i < KYBER_N / 4
        invariant
            i <= 64,
            canonical(a@),
            canonical(b@),
            forall|k: int| 0 <= k < 4 * i ==> #[trigger] r.coeffs@[k] as int == poly_basemul_spec(a@, b@)[k],
        decreases 64 - i,
    {
        let idx = 4 * i;
        proof {
            lemma_zeta(64 + i as int);
            assert(0 <= a@[idx as int] < q() && 0 <= a@[idx + 1] < q() && 0 <= a@[idx + 2] < q() && 0 <= a@[idx + 3] < q());
            assert(0 <= b@[idx as int] < q() && 0 <= b@[idx + 1] < q() && 0 <= b@[idx + 2] < q() && 0 <= b@[idx + 3] < q());
        }
        let zeta = zeta_at(64 + i) as i128;
        let (r0, r1) = basemul_pair(a.coeffs[idx], a.coeffs[idx + 1], b.coeffs[idx], b.coeffs[idx + 1], zeta);
        let nz = barrett_reduce(-zeta);
        proof { lemma_mod_bound(-(zeta as int), q()); }
        let (r2, r3) = basemul_pair(a.coeffs[idx + 2], a.coeffs[idx + 3], b.coeffs[idx + 2], b.coeffs[idx + 3], nz);
        r.coeffs[idx] = r0;
        r.coeffs[idx + 1] = r1;
        r.coeffs[idx + 2] = r2;
        r.coeffs[idx + 3] = r3;
        proof {
            assert forall|k: int| 0 <= k < 4 * (i + 1) implies #[trigger] r.coeffs@[k] as int == poly_basemul_spec(a@, b@)[k] by {
                if k >= 4 * i {
                    assert(k / 4 == i as int);
                }
            }
        }
        i = i + 1;
    }
    assert(r@ =~= poly_basemul_spec(a@, b@));
    assert(canonical(r@)) by {
        assert forall|k: int| 0 <= k < 256 implies 0 <= #[trigger] r@[k] < q() by {
            let i = k / 4;
            let z = zeta_spec(64 + i);
            lemma_mod_bound(fqmul_spec(fqmul_spec(a@[4 * i + 1], b@[4 * i + 1]), z) + fqmul_spec(a@[4 * i], b@[4 * i]), q());
            lemma_mod_bound(fqmul_spec(a@[4 * i], b@[4 * i + 1]) + fqmul_spec(a@[4 * i + 1], b@[4 * i]), q());
            lemma_mod_bound(fqmul_spec(fqmul_spec(a@[4 * i + 3], b@[4 * i + 3]), (-z) % q()) + fqmul_spec(a@[4 * i + 2], b@[4 * i + 2]), q());
            lemma_mod_bound(fqmul_spec(a@[4 * i + 2], b@[4 * i + 3]) + fqmul_spec(a@[4 * i + 3], b@[4 * i + 2]), q());
        }
    }
}

/// Term `i` of coefficient `k` of the product modulo `X^256 + 1`.
pub open spec fn negacyclic_term(a: Seq<int>, b: Seq<int>, k: int, i: int) -> int {
    if i <= k {
        a[i] * b[k - i]
    } else {
        -(a[i] * b[k - i + 256])
    }
}

/// The sum of the first `n` terms of coefficient `k` of the product modulo
/// `X^256 + 1`.
pub open spec fn negacyclic_sum(a: Seq<int>, b: Seq<int>, k: int, n: nat) -> int
    decreases n,
{
    if n == 0 {
        0
    } else {
        negacyclic_sum(a, b, k, (n - 1) as nat) + negacyclic_term(a, b, k, n - 1)
    }
}

/// The product of two polynomials in Z_q[X]/(X^256 + 1), coefficients in [0, q).
pub open spec fn poly_mul_spec(a: Seq<int>, b: Seq<int>) -> Seq<int> {
    Seq::new(256, |k: int| negacyclic_sum(a, b, k, 256) % q())
}

/// Index of the coefficient of `b` that meets `a[i]` in coefficient `k`.
spec fn partner_index(k: int, i: int) -> int {
    if i <= k { k - i } else { k - i + 256 }
}

/// Schoolbook multiplication of two polynomials modulo `X^256 + 1` and q.
pub fn poly_mul_negacyclic(r: &mut Poly, a: &Poly, b: &Poly)
    ensures
        final(r)@ == poly_mul_spec(a@, b@),
{
    proof { lemma_constants(); }
    let mut tmp = [0i128; KYBER_N];
    let mut i: usize = 0;
    while i < KYBER_N
        invariant
            i <= 256,
            forall|k: int| 0 <= k < 256 ==> #[trigger] tmp@[k] as int == negacyclic_sum(a@, b@, k, i as nat) % q(),
        decreases 256 - i,
    {
        let ai = a.coeffs[i];
        let mut j: usize = 0;
        while j < KYBER_N
            invariant
                i < 256,
                j <= 256,
                ai == a.coeffs@[i as int],
                forall|k: int| 0 <= k < 256 ==> #[trigger] tmp@[k] as int == (negacyclic_sum(a@, b@, k, i as nat)
                    + if partner_index(k, i as int) < j { negacyclic_term(a@, b@, k, i as int) } else { 0 }) % q(),
            decreases 256 - j,
        {
            let prod = mul_mod(ai, b.coeffs[j]);
            let k = i + j;
            let ghost t_old = tmp@;
            proof {
                lemma_mod_bound(0, q());
            }
            if k < KYBER_N {
                proof {
                    let s = negacyclic_sum(a@, b@, k as int, i as nat);
                    assert(partner_index(k as int, i as int) == j);
                    lemma_mod_bound(s, q());
                    lemma_mod_bound((ai as int) * (b.coeffs@[j as int] as int), q());
                    lemma_add_mod_noop(s, (ai as int) * (b.coeffs@[j as int] as int), q());
                    lemma_mod_twice(s, q());
                    lemma_mod_twice((ai as int) * (b.coeffs@[j as int] as int), q());
                    assert(negacyclic_term(a@, b@, k as int, i as int) == (ai as int) * (b.coeffs@[j as int] as int));
                }
                tmp[k] = barrett_reduce(tmp[k] + prod);
            } else {
                // x^{N} == -1 mod (x^N + 1)
                let idx = k - KYBER_N;
                proof {
                    let s = negacyclic_sum(a@, b@, idx as int, i as nat);
                    assert(partner_index(idx as int, i as int) == j);
                    lemma_mod_bound(s, q());
                    lemma_mod_bound((ai as int) * (b.coeffs@[j as int] as int), q());
                    lemma_sub_mod_noop(s, (ai as int) * (b.coeffs@[j as int] as int), q());
                    lemma_mod_twice(s, q());
                    lemma_mod_twice((ai as int) * (b.coeffs@[j as int] as int), q());
                    assert(negacyclic_term(a@, b@, idx as int, i as int) == -((ai as int) * (b.coeffs@[j as int] as int)));
                }
                tmp[idx] = barrett_reduce(tmp[idx] - prod);
            }
            proof {
                assert forall|kk: int| 0 <= kk < 256 implies #[trigger] tmp@[kk] as int == (negacyclic_sum(a@, b@, kk, i as nat)
                    + if partner_index(kk, i as int) < j + 1 { negacyclic_term(a@, b@, kk, i as int) } else { 0 }) % q() by {
                    if partner_index(kk, i as int) != j {
                        assert(tmp@[kk] == t_old[kk]);
                    } else {
                        assert(a@[i as int] == ai as int);
                    }
                }
            }
            j = j + 1;
        }
        proof {
            assert forall|k: int| 0 <= k < 256 implies #[trigger] tmp@[k] as int == negacyclic_sum(a@, b@, k, (i + 1) as nat) % q() by {
                assert(partner_index(k, i as int) < 256);
            }
        }
        i = i + 1;
    }
    r.coeffs = tmp;
    assert(r@ =~= poly_mul_spec(a@, b@));
}

// ---------------------------------------------------------------------------
// Noise sampling.

/// Name:  poly_getnoise_eta1
///
/// Description: Sample a polynomial deterministically from a seed and a nonce,
///  with output polynomial close to centered binomial distribution
///  with parameter KYBER_ETA1
///
/// Arguments:   - poly *r:     output polynomial
///  - const [u8] seed: input seed (pointing to array of length KYBER_SYMBYTES bytes)
///  - [u8]  nonce:   one-byte input nonce
pub fn poly_getnoise_eta1(r: &mut Poly, seed: &[u8], nonce: u8)
    requires
        seed@.len() == KYBER_SYMBYTES,
    ensures
        final(r)@ == cbd2_spec(prf_spec(seed@, nonce, 128)),
{
    let buf = prf(seed, nonce, KYBER_ETA1 * KYBER_N / 4);
    poly_cbd_eta1(r, buf.as_slice());
}

/// Name:  poly_getnoise_eta2
///
/// Description: Sample a polynomial deterministically from a seed and a nonce,
///  with output polynomial close to centered binomial distribution
///  with parameter KYBER_ETA2
///
/// Arguments:   - poly *r:     output polynomial
///  - const [u8] seed: input seed (pointing to array of length KYBER_SYMBYTES bytes)
///  - [u8]  nonce:   one-byte input nonce
pub fn poly_getnoise_eta2(r: &mut Poly, seed: &[u8], nonce: u8)
    requires
        seed@.len() == KYBER_SYMBYTES,
    ensures
        final(r)@ == cbd2_spec(prf_spec(seed@, nonce, 128)),
{
    let buf = prf(seed, nonce, KYBER_ETA2 * KYBER_N / 4);
    poly_cbd_eta2(r, buf.as_slice());
}

/// Bytes of pseudo-random input drawn for the bounded uniform sampler:
/// 1024 words of 8 bytes.
pub open spec fn uniform_buf_len() -> nat {
    8192
}

/// Words at or above this limit are rejected: the largest multiple of
/// `2 bound` that is at most 2^64, so that the accepted words reduced modulo
/// `2 bound` take every value equally often.
pub open spec fn uniform_limit(bound: int) -> int {
    (2 * bound) * (0x1_0000_0000_0000_0000int / (2 * bound))
}

/// The accepted words among the first `n` 8-byte little-endian words of
/// `buf`, in order, each reduced modulo `2 bound` and shifted by `-bound`.
pub open spec fn uniform_accepted(buf: Seq<u8>, bound: int, n: nat) -> Seq<int>
    decreases n,
{
    if n == 0 {
        Seq::empty()
    } else {
        let prev = uniform_accepted(buf, bound, (n - 1) as nat);
        let w = le_u64_at(buf, 8 * (n - 1)) as int;
        if w < uniform_limit(bound) {
            prev.push(w % (2 * bound) - bound)
        } else {
            prev
        }
    }
}

/// Rejection sampling of coefficients in [-bound, bound): coefficient `i` is
/// the `i`-th accepted word of the buffer (0 if the buffer holds fewer than
/// 256 accepted words).
pub open spec fn uniform_bounded_spec(buf: Seq<u8>, bound: int) -> Seq<int> {
    let acc = uniform_accepted(buf, bound, (buf.len() / 8) as nat);
    Seq::new(256, |i: int| if i < acc.len() { acc[i] } else { 0 })
}

/// Accepted words lie in [-bound, bound).
proof fn lemma_uniform_accepted_range(buf: Seq<u8>, bound: int, n: nat)
    requires
        bound > 0,
    ensures
        forall|k: int| 0 <= k < uniform_accepted(buf, bound, n).len() ==>
            -bound <= #[trigger] uniform_accepted(buf, bound, n)[k] < bound,
        uniform_accepted(buf, bound, n).len() <= n,
    decreases n,
{
    if n > 0 {
        lemma_uniform_accepted_range(buf, bound, (n - 1) as nat);
        lemma_mod_bound(le_u64_at(buf, 8 * (n - 1)) as int, 2 * bound);
    }
}

/// The uniform sampler's coefficients lie in [-bound, bound).
pub proof fn lemma_uniform_range(buf: Seq<u8>, bound: int, k: int)
    requires
        bound > 0,
        0 <= k < 256,
    ensures
        -bound <= uniform_bounded_spec(buf, bound)[k] < bound,
{
    lemma_uniform_accepted_range(buf, bound, (buf.len() / 8) as nat);
}

/// `256^n`.
pub open spec fn pow256(n: nat) -> int
    decreases n,
{
    if n == 0 { 1 } else { 256 * pow256((n - 1) as nat) }
}

/// The value of `n + m` bytes: the first `n` bytes, plus `256^n` times the
/// value of the next `m`.
pub proof fn lemma_le_bytes_split(s: Seq<u8>, off: int, n: nat, m: nat)
    ensures
        le_bytes_value(s, off, n + m) == le_bytes_value(s, off, n) + pow256(n) * le_bytes_value(s, off + n, m),
    decreases n,
{
    if n > 0 {
        let n1 = (n - 1) as nat;
        lemma_le_bytes_split(s, off + 1, n1, m);
        assert((n + m - 1) as nat == n1 + m);
        assert(off + 1 + n1 == off + n);
        let a = le_bytes_value(s, off + 1, n1);
        let b = le_bytes_value(s, off + n, m);
        let p = pow256(n1);
        assert(256 * (a + p * b) == 256 * a + (256 * p) * b) by (nonlinear_arith);
    }
}

/// The word read at `off` is the value of the eight bytes there.
pub proof fn lemma_le_u64_value(s: Seq<u8>, off: int)
    ensures
        le_u64_at(s, off) as int == le_bytes_value(s, off, 8),
{
    reveal_with_fuel(le_bytes_value, 9);
    lemma_u64_from_bytes_value(s[off], s[off + 1], s[off + 2], s[off + 3], s[off + 4], s[off + 5], s[off + 6], s[off + 7]);
}

/// One more word of the buffer: the full 64-bit little-endian word `w` at
/// `8 n` is accepted exactly when `w < 2 bound floor(2^64 / (2 bound))`, and
/// then contributes `(w mod 2 bound) - bound`; nothing else changes.
pub proof fn lemma_uniform_step(buf: Seq<u8>, bound: int, n: nat)
    requires
        bound > 0,
    ensures
        ({
            let w = le_bytes_value(buf, 8 * (n as int), 8);
            let limit = (2 * bound) * (0x1_0000_0000_0000_0000int / (2 * bound));
            &&& w < limit ==> uniform_accepted(buf, bound, n + 1)
                == uniform_accepted(buf, bound, n).push(w % (2 * bound) - bound)
            &&& w >= limit ==> uniform_accepted(buf, bound, n + 1) == uniform_accepted(buf, bound, n)
        }),
        uniform_accepted(buf, bound, 0) == Seq::<int>::empty(),
{
    lemma_le_u64_value(buf, 8 * (n as int));
    assert((n + 1 - 1) as nat == n);
}

/// The sampler's coefficient `i` is the `i`-th accepted word of the buffer,
/// or 0 when there are fewer accepted words; when every one of the first 256
/// full 64-bit words `w_j` of the buffer is below the limit, coefficient `j`
/// is `(w_j mod 2 bound) - bound`.
pub proof fn lemma_uniform_coeffs(buf: Seq<u8>, bound: int)
    requires
        bound > 0,
        buf.len() >= 2048,
    ensures
        forall|i: int| 0 <= i < 256 ==> #[trigger] uniform_bounded_spec(buf, bound)[i]
            == if i < uniform_accepted(buf, bound, (buf.len() / 8) as nat).len() {
                uniform_accepted(buf, bound, (buf.len() / 8) as nat)[i]
            } else {
                0
            },
        (forall|j: int| 0 <= j < 256 ==> #[trigger] le_bytes_value(buf, 8 * j, 8)
            < (2 * bound) * (0x1_0000_0000_0000_0000int / (2 * bound))) ==>
            forall|j: int| 0 <= j < 256 ==> #[trigger] uniform_bounded_spec(buf, bound)[j]
                == le_bytes_value(buf, 8 * j, 8) % (2 * bound) - bound,
{
    if forall|j: int| 0 <= j < 256 ==> #[trigger] le_bytes_value(buf, 8 * j, 8)
        < (2 * bound) * (0x1_0000_0000_0000_0000int / (2 * bound)) {
        lemma_uniform_prefix_all(buf, bound, 256);
        lemma_uniform_accepted_grows(buf, bound, 256, (buf.len() / 8) as nat);
    }
}

/// When the first `n` words are all accepted, the accepted list starts with
/// them, in order.
proof fn lemma_uniform_prefix_all(buf: Seq<u8>, bound: int, n: nat)
    requires
        bound > 0,
        n <= 256,
        forall|j: int| 0 <= j < 256 ==> #[trigger] le_bytes_value(buf, 8 * j, 8)
            < (2 * bound) * (0x1_0000_0000_0000_0000int / (2 * bound)),
    ensures
        uniform_accepted(buf, bound, n).len() == n,
        forall|j: int| 0 <= j < n ==> #[trigger] uniform_accepted(buf, bound, n)[j]
            == le_bytes_value(buf, 8 * j, 8) % (2 * bound) - bound,
    decreases n,
{
    if n > 0 {
        let m = (n - 1) as nat;
        lemma_uniform_prefix_all(buf, bound, m);
        lemma_uniform_step(buf, bound, m);
        assert(le_bytes_value(buf, 8 * (m as int), 8) < (2 * bound) * (0x1_0000_0000_0000_0000int / (2 * bound)));
    }
}

/// Reading more words only appends to the accepted list.
proof fn lemma_uniform_accepted_grows(buf: Seq<u8>, bound: int, n: nat, m: nat)
    requires
        n <= m,
    ensures
        uniform_accepted(buf, bound, n).len() <= uniform_accepted(buf, bound, m).len(),
        forall|j: int| 0 <= j < uniform_accepted(buf, bound, n).len() ==>
            #[trigger] uniform_accepted(buf, bound, m)[j] == uniform_accepted(buf, bound, n)[j],
    decreases m - n,
{
    if n < m {
        lemma_uniform_accepted_grows(buf, bound, n, (m - 1) as nat);
    }
}

/// Rejection sampling of a polynomial with coefficients in [-bound, bound)
/// from the bytes of `buf`, read as 8-byte little-endian words: a word is
/// rejected when it is at least `uniform_limit(bound)`, otherwise it is
/// reduced modulo `2 bound` and shifted by `-bound`. Coefficients left
/// without an accepted word are 0.
pub fn poly_uniform_from_bytes(r: &mut Poly, buf: &[u8], bound: i128)
    requires
        0 < bound < 0x4000_0000_0000_0000,
    ensures
        final(r)@ == uniform_bounded_spec(buf@, bound as int),
        forall|i: int| 0 <= i < 256 ==> -bound <= #[trigger] final(r)@[i] < bound,
{
    let range: u128 = (2 * bound) as u128;
    let quot: u128 = 0x1_0000_0000_0000_0000u128 / range;
    assert(range * quot <= 0x1_0000_0000_0000_0000u128) by {
        lemma_fundamental_div_mod(0x1_0000_0000_0000_0000int, range as int);
        lemma_mod_bound(0x1_0000_0000_0000_0000int, range as int);
    }
    let limit: u128 = range * quot;
    assert(limit as int == uniform_limit(bound as int)) by (nonlinear_arith)
        requires limit as int == range * quot, quot == 0x1_0000_0000_0000_0000u128 / range, range as int == 2 * bound,
            0 < range < 0x8000_0000_0000_0000;
    let blen = buf.len();
    let nwords = blen / 8;
    let ghost n = (buf@.len() / 8) as nat;
    let mut count: usize = 0;
    let mut j: usize = 0;
    while j < nwords
        invariant
            j <= nwords,
            blen == buf@.len(),
            nwords == blen / 8,
            nwords == n,
            n == buf@.len() / 8,
            0 < bound < 0x4000_0000_0000_0000,
            range as int == 2 * bound,
            limit as int == uniform_limit(bound as int),
            count <= 256,
            count as int == if uniform_accepted(buf@, bound as int, j as nat).len() < 256 {
                uniform_accepted(buf@, bound as int, j as nat).len() as int
            } else {
                256
            },
            forall|k: int| 0 <= k < count ==> #[trigger] r.coeffs@[k] as int == uniform_accepted(buf@, bound as int, j as nat)[k],
        decreases nwords - j,
    {
        assert(8 * j + 8 <= blen) by (nonlinear_arith)
            requires j < nwords, nwords == blen / 8;
        let o = 8 * j;
        let val: u64 = (buf[o] as u64) | ((buf[o + 1] as u64) << 8u64) | ((buf[o + 2] as u64) << 16u64)
            | ((buf[o + 3] as u64) << 24u64) | ((buf[o + 4] as u64) << 32u64) | ((buf[o + 5] as u64) << 40u64)
            | ((buf[o + 6] as u64) << 48u64) | ((buf[o + 7] as u64) << 56u64);
        proof {
            assert(val == le_u64_at(buf@, 8 * j));
        }
        if (val as u128) < limit && count < KYBER_N {
            let reduced = (val as u128) % range;
            r.coeffs[count] = reduced as i128 - bound;
            count = count + 1;
        }
        j = j + 1;
    }
    let ghost acc = uniform_accepted(buf@, bound as int, n);
    while count < KYBER_N
        invariant
            count <= 256,
            count as int >= (if acc.len() < 256 { acc.len() as int } else { 256 }),
            forall|k: int| 0 <= k < 256 && k < acc.len() ==> #[trigger] r.coeffs@[k] as int == acc[k],
            forall|k: int| 0 <= k < count && k >= acc.len() ==> #[trigger] r.coeffs@[k] as int == 0,
        decreases 256 - count,
    {
        r.coeffs[count] = 0;
        count = count + 1;
    }
    assert(r@ =~= uniform_bounded_spec(buf@, bound as int));
    proof {
        assert forall|i: int| 0 <= i < 256 implies -bound <= #[trigger] r@[i] < bound by {
            lemma_uniform_range(buf@, bound as int, i);
        }
    }
}

/// Name:  poly_getnoise_uniform
///
/// Description: Sample a polynomial deterministically from a seed and a nonce,
///  with output polynomial coefficients uniformly distributed in
///  [-KYBER_EPP_UNIFORM_BOUND, KYBER_EPP_UNIFORM_BOUND)
///
/// Arguments:   - poly *r:     output polynomial
///  - const [u8] seed: input seed (pointing to array of length KYBER_SYMBYTES bytes)
///  - [u8]  nonce:   one-byte input nonce
pub fn poly_getnoise_uniform(r: &mut Poly, seed: &[u8], nonce: u8)
    requires
        seed@.len() == KYBER_SYMBYTES,
    ensures
        final(r)@ == uniform_bounded_spec(prf_spec(seed@, nonce, uniform_buf_len()), KYBER_EPP_UNIFORM_BOUND as int),
{
    poly_getnoise_uniform_bounded(r, seed, nonce, KYBER_EPP_UNIFORM_BOUND);
}

/// Bounded uniform sampling with an explicit bound: 8192 pseudo-random bytes
/// are drawn and sampled by rejection (`poly_uniform_from_bytes`); 8 bytes per
/// word are enough for `2 bound < 2^63`.
pub(crate) fn poly_getnoise_uniform_bounded(r: &mut Poly, seed: &[u8], nonce: u8, bound: i128)
    requires
        seed@.len() == KYBER_SYMBYTES,
        0 < bound < 0x4000_0000_0000_0000,
    ensures
        final(r)@ == uniform_bounded_spec(prf_spec(seed@, nonce, uniform_buf_len()), bound as int),
        forall|i: int| 0 <= i < 256 ==> -bound <= #[trigger] final(r)@[i] < bound,
{
    let buf = prf(seed, nonce, KYBER_N * 8 * 4);
    poly_uniform_from_bytes(r, buf.as_slice(), bound);
}

} // verus!
