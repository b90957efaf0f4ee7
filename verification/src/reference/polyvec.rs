use vstd::prelude::*;
use vstd::arithmetic::div_mod::*;
use crate::params::{KYBER_K, KYBER_POLYBYTES, KYBER_POLYVECBYTES};
use crate::reference::reduce::{q, mont_r, mont_r_inv, montgomery_reduce_spec, lemma_constants};
use crate::reference::ntt::{ntt_spec, invntt_spec, canonical};
use crate::reference::poly::{
    Poly, zero_poly, poly_tobytes_at, poly_frombytes_at, poly_tobytes_spec, poly_frombytes_spec,
    poly_ntt, poly_invntt_tomont, poly_basemul, poly_basemul_spec, poly_reduce, poly_add,
    poly_tomont, poly_frommont,
};

verus! {

/// A vector of KYBER_K polynomials.
#[derive(Clone, Copy)]
pub struct Polyvec {
    pub vec: [Poly; KYBER_K],
}

impl View for Polyvec {
    type V = Seq<Seq<int>>;

    /// The polynomials' coefficient sequences.
    open spec fn view(&self) -> Seq<Seq<int>> {
        Seq::new(12, |i: int| self.vec@[i]@)
    }
}

/// Every coefficient `c` replaced by `c 2^64 mod q`.
pub open spec fn poly_tomont_spec(p: Seq<int>) -> Seq<int> {
    Seq::new(256, |k: int| (p[k] * mont_r()) % q())
}

/// Every coefficient `c` replaced by `c 2^-64 mod q`.
pub open spec fn poly_frommont_spec(p: Seq<int>) -> Seq<int> {
    Seq::new(256, |k: int| (p[k] * mont_r_inv()) % q())
}

/// Every coefficient reduced to [0, q).
pub open spec fn poly_reduce_spec(p: Seq<int>) -> Seq<int> {
    Seq::new(256, |k: int| p[k] % q())
}

/// The forward transform of every polynomial of a vector.
pub open spec fn pv_ntt(v: Seq<Seq<int>>) -> Seq<Seq<int>> {
    Seq::new(12, |i: int| ntt_spec(v[i]))
}

/// The inverse transform of every polynomial of a vector.
pub open spec fn pv_invntt(v: Seq<Seq<int>>) -> Seq<Seq<int>> {
    Seq::new(12, |i: int| invntt_spec(v[i]))
}

/// Conversion of every polynomial of a vector into the Montgomery domain.
pub open spec fn pv_tomont(v: Seq<Seq<int>>) -> Seq<Seq<int>> {
    Seq::new(12, |i: int| poly_tomont_spec(v[i]))
}

/// Conversion of every polynomial of a vector out of the Montgomery domain.
pub open spec fn pv_frommont(v: Seq<Seq<int>>) -> Seq<Seq<int>> {
    Seq::new(12, |i: int| poly_frommont_spec(v[i]))
}

/// Every polynomial of the vector has canonical coefficients.
pub open spec fn polyvec_canonical(v: Seq<Seq<int>>) -> bool {
    forall|i: int| 0 <= i < 12 ==> #[trigger] canonical(v[i])
}

impl Polyvec {
    /// The zero vector.
    pub fn new() -> (r: Self)
        ensures
            forall|i: int| 0 <= i < 12 ==> #[trigger] r@[i] == zero_poly(),
    {
        Polyvec { vec: [Poly::new(); KYBER_K] }
    }
}

/// Serialization of a vector: polynomial `i` occupies bytes
/// `2048 i .. 2048 (i + 1)`.
pub open spec fn polyvec_tobytes_spec(a: Seq<Seq<int>>) -> Seq<u8> {
    Seq::new(24576, |p: int| poly_tobytes_spec(a[p / 2048])[p % 2048])
}

/// De-serialization of the 24576 bytes at offset `off`.
pub open spec fn polyvec_frombytes_spec(s: Seq<u8>, off: int) -> Seq<Seq<int>> {
    Seq::new(12, |i: int| poly_frombytes_spec(s, off + 2048 * i))
}

/// Writes the serialization of `a` to `r[off .. off + 24576]`.
pub(crate) fn polyvec_tobytes_at(r: &mut [u8], off: usize, a: &Polyvec)
    requires
        off + 24576 <= old(r)@.len(),
    ensures
        final(r)@.len() == old(r)@.len(),
        forall|p: int| 0 <= p < 24576 ==> #[trigger] final(r)@[off + p] == polyvec_tobytes_spec(a@)[p],
        forall|p: int| 0 <= p < final(r)@.len() && !(off <= p < off + 24576) ==> #[trigger] final(r)@[p] == old(r)@[p],
{
    let ghost r0 = r@;
    let rlen = r.len();
    let mut i: usize = 0;
    while i < KYBER_K
        invariant
            i <= 12,
            rlen == r@.len(),
            r@.len() == r0.len(),
            off + 24576 <= r@.len(),
            forall|p: int| 0 <= p < 2048 * i ==> #[trigger] r@[off + p] == polyvec_tobytes_spec(a@)[p],
            forall|p: int| 0 <= p < r@.len() && !(off <= p < off + 2048 * i) ==> #[trigger] r@[p] == r0[p],
        decreases 12 - i,
    {
        let ghost rb = r@;
        poly_tobytes_at(r, off + i * KYBER_POLYBYTES, &a.vec[i]);
        proof {
            assert forall|p: int| 0 <= p < 2048 * (i + 1) implies #[trigger] r@[off + p] == polyvec_tobytes_spec(a@)[p] by {
                if p >= 2048 * i {
                    let pp = p - 2048 * i;
                    assert(r@[off + i * 2048 + pp] == poly_tobytes_spec(a.vec@[i as int]@)[pp]);
                    assert(p / 2048 == i as int && p % 2048 == pp);
                } else {
                    assert(rb[off + p] == r@[off + p]);
                }
            }
            assert forall|p: int| 0 <= p < r@.len() && !(off <= p < off + 2048 * (i + 1)) implies #[trigger] r@[p] == r0[p] by {
                assert(r@[p] == rb[p]);
            }
        }
        i = i + 1;
    }
}

/// Name:  polyvec_tobytes
///
/// Description: Serialize vector of polynomials
///
/// Arguments:   - [u8] r: output byte array (needs space for KYBER_POLYVECBYTES)
///  - const Polyvec a: input vector of polynomials
pub fn polyvec_tobytes(r: &mut [u8], a: &Polyvec)
    requires
        old(r)@.len() >= KYBER_POLYVECBYTES,
    ensures
        final(r)@.len() == old(r)@.len(),
        final(r)@.subrange(0, 24576) == polyvec_tobytes_spec(a@),
        final(r)@.subrange(24576, final(r)@.len() as int) == old(r)@.subrange(24576, old(r)@.len() as int),
{
    polyvec_tobytes_at(r, 0, a);
    assert forall|p: int| 0 <= p < 24576 implies #[trigger] r@.subrange(0, 24576)[p] == polyvec_tobytes_spec(a@)[p] by {
        assert(r@[0 + p] == polyvec_tobytes_spec(a@)[p]);
    }
    assert(r@.subrange(0, 24576) =~= polyvec_tobytes_spec(a@));
    assert(r@.subrange(24576, r@.len() as int) =~= old(r)@.subrange(24576, old(r)@.len() as int));
}

/// Name:  polyvec_compress
///
/// Description: Compress and serialize vector of polynomials; with the wide
///  modulus no compression takes place.
///
/// Arguments:   - [u8] r: output byte array (needs space for KYBER_POLYVECCOMPRESSEDBYTES)
///  - const Polyvec a: input vector of polynomials
pub fn polyvec_compress(r: &mut [u8], a: Polyvec)
    requires
        old(r)@.len() >= KYBER_POLYVECBYTES,
    ensures
        final(r)@.len() == old(r)@.len(),
        final(r)@.subrange(0, 24576) == polyvec_tobytes_spec(a@),
        final(r)@.subrange(24576, final(r)@.len() as int) == old(r)@.subrange(24576, old(r)@.len() as int),
{
    polyvec_tobytes(r, &a);
}

/// Reads the vector stored at `a[off .. off + 24576]`.
pub(crate) fn polyvec_frombytes_at(r: &mut Polyvec, a: &[u8], off: usize)
    requires
        off + 24576 <= a@.len(),
    ensures
        final(r)@ == polyvec_frombytes_spec(a@, off as int),
{
    let alen = a.len();
    let mut i: usize = 0;
    while i < KYBER_K
        invariant
            i <= 12,
            alen == a@.len(),
            off + 24576 <= a@.len(),
            forall|j: int| 0 <= j < i ==> #[trigger] r.vec@[j]@ == poly_frombytes_spec(a@, off + 2048 * j),
        decreases 12 - i,
    {
        let mut p = r.vec[i];
        poly_frombytes_at(&mut p, a, off + i * KYBER_POLYBYTES);
        r.vec[i] = p;
        i = i + 1;
    }
    assert(r@ =~= polyvec_frombytes_spec(a@, off as int));
}

/// Name:  polyvec_frombytes
///
/// Description: De-serialize vector of polynomials;
///  inverse of polyvec_tobytes
///
/// Arguments:   - Polyvec r: output vector of polynomials
///  - const [u8] a: input byte array (of length KYBER_POLYVECBYTES)
pub fn polyvec_frombytes(r: &mut Polyvec, a: &[u8])
    requires
        a@.len() >= KYBER_POLYVECBYTES,
    ensures
        final(r)@ == polyvec_frombytes_spec(a@, 0),
{
    polyvec_frombytes_at(r, a, 0);
}

/// Name:  polyvec_decompress
///
/// Description: De-serialize and decompress vector of polynomials;
///  the inverse of polyvec_compress
///
/// Arguments:   - Polyvec r:   output vector of polynomials
///  - [u8] a: input byte array (of length KYBER_POLYVECCOMPRESSEDBYTES)
pub fn polyvec_decompress(r: &mut Polyvec, a: &[u8])
    requires
        a@.len() >= KYBER_POLYVECBYTES,
    ensures
        final(r)@ == polyvec_frombytes_spec(a@, 0),
{
    polyvec_frombytes_at(r, a, 0);
}

/// Name:  polyvec_ntt
///
/// Description: Apply forward NTT to all elements of a vector of polynomials
///
/// Arguments:   - Polyvec r: in/output vector of polynomials
pub fn polyvec_ntt(r: &mut Polyvec)
    requires
        polyvec_canonical(old(r)@),
    ensures
        forall|i: int| 0 <= i < 12 ==> #[trigger] final(r)@[i] == ntt_spec(old(r)@[i]),
        final(r)@ == pv_ntt(old(r)@),
        polyvec_canonical(final(r)@),
{
    let ghost r0 = r@;
    let mut i: usize = 0;
    while i < KYBER_K
        invariant
            i <= 12,
            polyvec_canonical(r0),
            forall|j: int| 0 <= j < i ==> #[trigger] r.vec@[j]@ == ntt_spec(r0[j]) && canonical(r.vec@[j]@),
            forall|j: int| i <= j < 12 ==> #[trigger] r.vec@[j]@ == r0[j],
        decreases 12 - i,
    {
        let mut p = r.vec[i];
        proof { assert(canonical(r0[i as int])); }
        poly_ntt(&mut p);
        r.vec[i] = p;
        i = i + 1;
    }
    assert(r@ =~= pv_ntt(r0));
    assert(polyvec_canonical(r@)) by {
        assert forall|j: int| 0 <= j < 12 implies #[trigger] canonical(r@[j]) by {
            assert(r@[j] == r.vec@[j]@);
        }
    }
}

/// Name:  polyvec_invntt
///
/// Description: Apply inverse NTT to all elements of a vector of polynomials
///
/// Arguments:   - Polyvec r: in/output vector of polynomials
pub fn polyvec_invntt_tomont(r: &mut Polyvec)
    requires
        polyvec_canonical(old(r)@),
    ensures
        forall|i: int| 0 <= i < 12 ==> #[trigger] final(r)@[i] == invntt_spec(old(r)@[i]),
        final(r)@ == pv_invntt(old(r)@),
        polyvec_canonical(final(r)@),
{
    let ghost r0 = r@;
    let mut i: usize = 0;
    while i < KYBER_K
        invariant
            i <= 12,
            polyvec_canonical(r0),
            forall|j: int| 0 <= j < i ==> #[trigger] r.vec@[j]@ == invntt_spec(r0[j]) && canonical(r.vec@[j]@),
            forall|j: int| i <= j < 12 ==> #[trigger] r.vec@[j]@ == r0[j],
        decreases 12 - i,
    {
        let mut p = r.vec[i];
        proof { assert(canonical(r0[i as int])); }
        poly_invntt_tomont(&mut p);
        r.vec[i] = p;
        i = i + 1;
    }
    assert(r@ =~= pv_invntt(r0));
    assert(polyvec_canonical(r@)) by {
        assert forall|j: int| 0 <= j < 12 implies #[trigger] canonical(r@[j]) by {
            assert(r@[j] == r.vec@[j]@);
        }
    }
}

/// The sum over the first `n` polynomial pairs of coefficient `k` of their
/// NTT-domain products.
pub open spec fn basemul_acc_sum(a: Seq<Seq<int>>, b: Seq<Seq<int>>, k: int, n: nat) -> int
    decreases n,
{
    if n == 0 {
        0
    } else {
        basemul_acc_sum(a, b, k, (n - 1) as nat) + poly_basemul_spec(a[n - 1], b[n - 1])[k]
    }
}

/// The inner product of two vectors in the NTT domain, reduced modulo q.
pub open spec fn polyvec_basemul_acc_spec(a: Seq<Seq<int>>, b: Seq<Seq<int>>) -> Seq<int> {
    Seq::new(256, |k: int| basemul_acc_sum(a, b, k, 12) % q())
}

/// Name:  polyvec_basemul_acc_montgomery
///
/// Description: Pointwise multiply elements of a and b and accumulate into r
///
/// Arguments: - poly *r:  output polynomial
///  - const Polyvec a: first input vector of polynomials
///  - const Polyvec b: second input vector of polynomials
pub fn polyvec_basemul_acc_montgomery(r: &mut Poly, a: &Polyvec, b: &Polyvec)
    requires
        polyvec_canonical(a@),
        polyvec_canonical(b@),
    ensures
        final(r)@ == polyvec_basemul_acc_spec(a@, b@),
        canonical(final(r)@),
{
    proof { lemma_constants(); }
    let mut t = Poly::new();
    proof { assert(canonical(a@[0]) && canonical(b@[0])); }
    poly_basemul(r, &a.vec[0], &b.vec[0]);
    proof {
        assert forall|k: int| 0 <= k < 256 implies #[trigger] r@[k] == basemul_acc_sum(a@, b@, k, 1) by {
            assert(basemul_acc_sum(a@, b@, k, 1) == basemul_acc_sum(a@, b@, k, 0) + poly_basemul_spec(a@[0], b@[0])[k]);
        }
    }
    let mut i: usize = 1;
    while i < KYBER_K
        invariant
            1 <= i <= 12,
            polyvec_canonical(a@),
            polyvec_canonical(b@),
            forall|k: int| 0 <= k < 256 ==> #[trigger] r@[k] == basemul_acc_sum(a@, b@, k, i as nat),
            forall|k: int| 0 <= k < 256 ==> 0 <= #[trigger] r@[k] < i * q(),
        decreases 12 - i,
    {
        proof { assert(canonical(a@[i as int]) && canonical(b@[i as int])); }
        poly_basemul(&mut t, &a.vec[i], &b.vec[i]);
        proof {
            assert forall|k: int| 0 <= k < 256 implies i128::MIN <= #[trigger] r@[k] + t@[k] <= i128::MAX by {
                assert(0 <= t@[k] < q());
                assert(i * q() <= 12 * q()) by (nonlinear_arith) requires i <= 12, q() > 0;
            }
        }
        let ghost r_old = r@;
        poly_add(r, &t);
        proof {
            assert forall|k: int| 0 <= k < 256 implies #[trigger] r@[k] == basemul_acc_sum(a@, b@, k, (i + 1) as nat) by {
                assert(a@[i as int] == a.vec@[i as int]@);
            }
            assert forall|k: int| 0 <= k < 256 implies 0 <= #[trigger] r@[k] < (i + 1) * q() by {
                assert(0 <= t@[k] < q());
                assert(r@[k] == r_old[k] + t@[k]);
                assert((i + 1) * q() == i * q() + q()) by (nonlinear_arith);
            }
        }
        i = i + 1;
    }
    poly_reduce(r);
    assert(r@ =~= polyvec_basemul_acc_spec(a@, b@));
    assert(canonical(r@)) by {
        assert forall|k: int| 0 <= k < 256 implies 0 <= #[trigger] r@[k] < q() by {
            lemma_mod_bound(basemul_acc_sum(a@, b@, k, 12), q());
        }
    }
}

/// Name:  polyvec_reduce
///
/// Description: Reduces every coefficient of every polynomial of the vector to
///  its canonical residue in [0, q).
///
/// Arguments:   - Polyvec r:   input/output vector
pub fn polyvec_reduce(r: &mut Polyvec)
    ensures
        forall|i: int, k: int| 0 <= i < 12 && 0 <= k < 256 ==> #[trigger] final(r)@[i][k] == old(r)@[i][k] % q(),
        final(r)@ == Seq::new(12, |i: int| poly_reduce_spec(old(r)@[i])),
        polyvec_canonical(final(r)@),
{
    let ghost r0 = r@;
    let mut i: usize = 0;
    while i < KYBER_K
        invariant
            i <= 12,
            forall|j: int, k: int| 0 <= j < i && 0 <= k < 256 ==> #[trigger] r.vec@[j]@[k] == r0[j][k] % q(),
            forall|j: int| i <= j < 12 ==> #[trigger] r.vec@[j]@ == r0[j],
        decreases 12 - i,
    {
        let mut p = r.vec[i];
        poly_reduce(&mut p);
        r.vec[i] = p;
        i = i + 1;
    }
    assert forall|j: int| 0 <= j < 12 implies #[trigger] r@[j] == poly_reduce_spec(r0[j]) by {
        assert(r@[j] =~= poly_reduce_spec(r0[j]));
    }
    assert(r@ =~= Seq::new(12, |i: int| poly_reduce_spec(r0[i])));
    assert forall|j: int| 0 <= j < 12 implies #[trigger] canonical(r@[j]) by {
        lemma_constants();
        assert forall|k: int| 0 <= k < 256 implies 0 <= #[trigger] r@[j][k] < q() by {
            lemma_mod_bound(r0[j][k], q());
        }
    }
}

/// Name:  polyvec_add
///
/// Description: Add vectors of polynomials; no modular reduction is performed
///
/// Arguments: - Polyvec r:   input/output vector (first summand)
///  - const Polyvec b: second summand
pub fn polyvec_add(r: &mut Polyvec, b: &Polyvec)
    requires
        forall|i: int, k: int| 0 <= i < 12 && 0 <= k < 256 ==> i128::MIN <= #[trigger] old(r)@[i][k] + b@[i][k] <= i128::MAX,
    ensures
        forall|i: int, k: int| 0 <= i < 12 && 0 <= k < 256 ==> #[trigger] final(r)@[i][k] == old(r)@[i][k] + b@[i][k],
{
    let ghost r0 = r@;
    let mut i: usize = 0;
    while i < KYBER_K
        invariant
            i <= 12,
            forall|j: int, k: int| 0 <= j < 12 && 0 <= k < 256 ==> i128::MIN <= #[trigger] r0[j][k] + b@[j][k] <= i128::MAX,
            forall|j: int, k: int| 0 <= j < i && 0 <= k < 256 ==> #[trigger] r.vec@[j]@[k] == r0[j][k] + b@[j][k],
            forall|j: int| i <= j < 12 ==> #[trigger] r.vec@[j]@ == r0[j],
        decreases 12 - i,
    {
        let mut p = r.vec[i];
        proof {
            assert forall|k: int| 0 <= k < 256 implies i128::MIN <= #[trigger] p@[k] + b.vec@[i as int]@[k] <= i128::MAX by {
                assert(r0[i as int][k] + b@[i as int][k] <= i128::MAX);
            }
        }
        poly_add(&mut p, &b.vec[i]);
        r.vec[i] = p;
        i = i + 1;
    }
}

/// Conversion of every coefficient of the vector to the Montgomery domain:
/// `c 2^64 mod q`.
pub fn polyvec_tomont(r: &mut Polyvec)
    ensures
        forall|i: int, k: int| 0 <= i < 12 && 0 <= k < 256 ==> #[trigger] final(r)@[i][k] == (old(r)@[i][k] * mont_r()) % q(),
        final(r)@ == pv_tomont(old(r)@),
        polyvec_canonical(final(r)@),
{
    let ghost r0 = r@;
    let mut i: usize = 0;
    while i < KYBER_K
        invariant
            i <= 12,
            forall|j: int, k: int| 0 <= j < i && 0 <= k < 256 ==> #[trigger] r.vec@[j]@[k] == (r0[j][k] * mont_r()) % q(),
            forall|j: int| i <= j < 12 ==> #[trigger] r.vec@[j]@ == r0[j],
        decreases 12 - i,
    {
        let mut p = r.vec[i];
        poly_tomont(&mut p);
        r.vec[i] = p;
        i = i + 1;
    }
    assert forall|j: int| 0 <= j < 12 implies #[trigger] r@[j] == pv_tomont(r0)[j] by {
        assert(r@[j] =~= pv_tomont(r0)[j]);
    }
    assert(r@ =~= pv_tomont(r0));
    assert forall|j: int| 0 <= j < 12 implies #[trigger] canonical(r@[j]) by {
        lemma_constants();
        assert forall|k: int| 0 <= k < 256 implies 0 <= #[trigger] r@[j][k] < q() by {
            lemma_mod_bound(r0[j][k] * mont_r(), q());
        }
    }
}

/// Conversion of every coefficient of the vector out of the Montgomery
/// domain (see `poly_frommont`).
pub fn polyvec_frommont(r: &mut Polyvec)
    ensures
        forall|i: int, k: int| 0 <= i < 12 && 0 <= k < 256 ==> #[trigger] final(r)@[i][k]
            == montgomery_reduce_spec((old(r).vec@[i].coeffs@[k] as u128) as int),
        forall|i: int, k: int| 0 <= i < 12 && 0 <= k < 256 && 0 <= old(r)@[i][k] < q() * mont_r()
            ==> #[trigger] final(r)@[i][k] == (old(r)@[i][k] * mont_r_inv()) % q(),
        polyvec_canonical(old(r)@) ==> final(r)@ == pv_frommont(old(r)@) && polyvec_canonical(final(r)@),
{
    let ghost r0 = *r;
    let mut i: usize = 0;
    while i < KYBER_K
        invariant
            i <= 12,
            forall|j: int, k: int| 0 <= j < i && 0 <= k < 256 ==> #[trigger] r.vec@[j]@[k]
                == montgomery_reduce_spec((r0.vec@[j].coeffs@[k] as u128) as int),
            forall|j: int, k: int| 0 <= j < i && 0 <= k < 256 && 0 <= r0@[j][k] < q() * mont_r()
                ==> #[trigger] r.vec@[j]@[k] == (r0@[j][k] * mont_r_inv()) % q(),
            forall|j: int| i <= j < 12 ==> #[trigger] r.vec@[j] == r0.vec@[j],
        decreases 12 - i,
    {
        let mut p = r.vec[i];
        poly_frommont(&mut p);
        r.vec[i] = p;
        i = i + 1;
    }
    proof {
    if polyvec_canonical(r0@) {
        lemma_constants();
        assert forall|j: int| 0 <= j < 12 implies #[trigger] r@[j] == pv_frommont(r0@)[j] by {
            assert forall|k: int| 0 <= k < 256 implies #[trigger] r@[j][k] == pv_frommont(r0@)[j][k] by {
                assert(canonical(r0@[j]));
                assert(0 <= r0@[j][k] < q());
                assert(q() < q() * mont_r()) by (nonlinear_arith) requires q() > 0, mont_r() > 1;
            }
            assert(r@[j] =~= pv_frommont(r0@)[j]);
        }
        assert(r@ =~= pv_frommont(r0@));
        assert forall|j: int| 0 <= j < 12 implies #[trigger] canonical(r@[j]) by {
            assert forall|k: int| 0 <= k < 256 implies 0 <= #[trigger] r@[j][k] < q() by {
                lemma_mod_bound(r0@[j][k] * mont_r_inv(), q());
            }
        }
    }
    }
}

} // verus!
