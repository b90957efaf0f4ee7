use vstd::prelude::*;
use vstd::arithmetic::div_mod::*;
use vstd::arithmetic::mul::*;
use crate::params::{
    KYBER_K, KYBER_N, KYBER_Q, KYBER_SYMBYTES, KYBER_POLYVECBYTES, KYBER_POLYVECCOMPRESSEDBYTES,
    KYBER_INDCPA_PUBLICKEYBYTES, KYBER_INDCPA_SECRETKEYBYTES, KYBER_INDCPA_BYTES,
    KYBER_EPP_UNIFORM_BOUND,
};
use crate::reference::reduce::{q, mont_r, mont_r_inv, lemma_constants, montgomery_reduce_spec};
use crate::reference::ntt::{ntt_spec, invntt_spec, canonical, lemma_ntt_invntt, lemma_invntt_ntt};
use crate::reference::poly::{
    Poly, poly_tobytes_spec, poly_frombytes_spec, poly_tobytes_at, poly_frombytes_at,
    lemma_poly_bytes_roundtrip, poly_frommont, poly_tomont, poly_ntt, poly_invntt_tomont,
    poly_add, poly_sub, poly_reduce, poly_frommsg, poly_tomsg, poly_frommsg_spec,
    poly_tomsg_spec, poly_getnoise_eta1, poly_getnoise_eta2, poly_getnoise_uniform_bounded,
    uniform_bounded_spec, uniform_buf_len, le_u64_at, le_bytes_value, pow256, lemma_le_bytes_split,
    lemma_le_u64_value,
};
use crate::reference::symmetric::{xof, xof_spec, hash_g, spec_sha3_512, prf_spec};
use crate::reference::cbd::cbd2_spec;
use crate::reference::polyvec::{
    Polyvec, polyvec_canonical, polyvec_tobytes_spec, polyvec_frombytes_spec,
    polyvec_tobytes, polyvec_frombytes, polyvec_compress,
    polyvec_decompress, polyvec_ntt, polyvec_invntt_tomont, polyvec_basemul_acc_montgomery,
    polyvec_basemul_acc_spec, polyvec_reduce, polyvec_add, polyvec_tomont, polyvec_frommont,
    poly_tomont_spec, poly_frommont_spec, poly_reduce_spec, pv_ntt, pv_invntt, pv_tomont,
    pv_frommont,
};

verus! {

/// Copies `len` bytes from `src[src_off ..]` to `dst[dst_off ..]`.
fn copy_bytes(dst: &mut [u8], dst_off: usize, src: &[u8], src_off: usize, len: usize)
    requires
        dst_off + len <= old(dst)@.len(),
        src_off + len <= src@.len(),
    ensures
        final(dst)@.len() == old(dst)@.len(),
        final(dst)@.subrange(dst_off as int, dst_off + len) == src@.subrange(src_off as int, src_off + len),
        forall|p: int| 0 <= p < final(dst)@.len() && !(dst_off <= p < dst_off + len) ==> #[trigger] final(dst)@[p] == old(dst)@[p],
{
    let ghost d0 = dst@;
    let dlen = dst.len();
    let slen = src.len();
    let mut i: usize = 0;
    while i < len
        invariant
            i <= len,
            dlen == dst@.len(),
            slen == src@.len(),
            dst@.len() == d0.len(),
            dst_off + len <= dst@.len(),
            src_off + len <= src@.len(),
            forall|p: int| 0 <= p < i ==> #[trigger] dst@[dst_off + p] == src@[src_off + p],
            forall|p: int| 0 <= p < dst@.len() && !(dst_off <= p < dst_off + i) ==> #[trigger] dst@[p] == d0[p],
        decreases len - i,
    {
        dst[dst_off + i] = src[src_off + i];
        i = i + 1;
    }
    assert forall|p: int| 0 <= p < len implies #[trigger] dst@.subrange(dst_off as int, dst_off + len)[p] == src@.subrange(src_off as int, src_off + len)[p] by {
        assert(dst@[dst_off + p] == src@[src_off + p]);
    }
    assert(dst@.subrange(dst_off as int, dst_off + len) =~= src@.subrange(src_off as int, src_off + len));
}

// ---------------------------------------------------------------------------
// Key and ciphertext encodings.

/// Serialized public key: the vector, taken out of the NTT and Montgomery
/// domains, followed by the 32-byte seed of the matrix.
pub open spec fn pack_pk_spec(pk: Seq<Seq<int>>, seed: Seq<u8>) -> Seq<u8> {
    polyvec_tobytes_spec(pv_frommont(pv_invntt(pk))) + seed.subrange(0, 32)
}

/// The public-key vector in the NTT and Montgomery domains, as read from a
/// serialized public key.
pub open spec fn unpack_pk_vec_spec(packedpk: Seq<u8>) -> Seq<Seq<int>> {
    pv_ntt(pv_tomont(polyvec_frombytes_spec(packedpk, 0)))
}

/// Serialized secret key: the vector, taken out of the NTT and Montgomery
/// domains.
pub open spec fn pack_sk_spec(sk: Seq<Seq<int>>) -> Seq<u8> {
    polyvec_tobytes_spec(pv_frommont(pv_invntt(sk)))
}

/// The secret-key vector in the NTT and Montgomery domains, as read from a
/// serialized secret key.
pub open spec fn unpack_sk_spec(packedsk: Seq<u8>) -> Seq<Seq<int>> {
    pv_ntt(pv_tomont(polyvec_frombytes_spec(packedsk, 0)))
}

/// Serialized ciphertext of canonical `b` and `v` (Montgomery domain): both
/// taken out of the Montgomery domain, `b` first.
pub open spec fn pack_ciphertext_spec(b: Seq<Seq<int>>, v: Seq<int>) -> Seq<u8> {
    polyvec_tobytes_spec(pv_frommont(b)) + poly_tobytes_spec(poly_frommont_spec(v))
}

/// The Montgomery reduction of every coefficient, read as an unsigned 128-bit
/// word (what the code computes for arbitrary coefficients).
pub open spec fn polyvec_frommont_words(b: Polyvec) -> Seq<Seq<int>> {
    Seq::new(12, |i: int| Seq::new(256, |k: int| montgomery_reduce_spec((b.vec@[i].coeffs@[k] as u128) as int)))
}

/// See `polyvec_frommont_words`.
pub open spec fn poly_frommont_words(v: Poly) -> Seq<int> {
    Seq::new(256, |k: int| montgomery_reduce_spec((v.coeffs@[k] as u128) as int))
}

/// Name:  pack_pk
///
/// Description: Serialize the public key as concatenation of the
///  serialized vector of polynomials pk (taken back to the normal domain,
///  which is also left in `pk`) and the public seed used to generate the
///  matrix A.
///
/// Arguments:   [u8] r:  the output serialized public key
///  const poly *pk:  the input public-key polynomial
///  const [u8] seed: the input public seed
pub fn pack_pk(r: &mut [u8], pk: &mut Polyvec, seed: &[u8])
    requires
        old(r)@.len() >= KYBER_INDCPA_PUBLICKEYBYTES,
        seed@.len() >= KYBER_SYMBYTES,
        polyvec_canonical(old(pk)@),
    ensures
        final(pk)@ == pv_frommont(pv_invntt(old(pk)@)),
        polyvec_canonical(final(pk)@),
        final(r)@.len() == old(r)@.len(),
        final(r)@.subrange(0, 24608) == pack_pk_spec(old(pk)@, seed@),
        final(r)@.subrange(24608, final(r)@.len() as int) == old(r)@.subrange(24608, old(r)@.len() as int),
{
    let ghost r0 = r@;
    // store pk in normal domain
    polyvec_invntt_tomont(pk);
    polyvec_frommont(pk);
    polyvec_tobytes(r, pk);
    let ghost r1 = r@;
    copy_bytes(r, KYBER_POLYVECBYTES, seed, 0, KYBER_SYMBYTES);
    assert forall|p: int| 0 <= p < 24608 implies #[trigger] r@.subrange(0, 24608)[p] == pack_pk_spec(old(pk)@, seed@)[p] by {
        if p < 24576 {
            assert(r@[p] == r1[p]);
            assert(r1.subrange(0, 24576)[p] == r1[p]);
        } else {
            assert(r@.subrange(24576, 24608)[p - 24576] == r@[p]);
        }
    }
    assert(r@.subrange(0, 24608) =~= pack_pk_spec(old(pk)@, seed@));
    assert forall|p: int| 0 <= p < r@.len() - 24608 implies #[trigger] r@.subrange(24608, r@.len() as int)[p] == r0.subrange(24608, r0.len() as int)[p] by {
        assert(r@[24608 + p] == r1[24608 + p]);
        assert(r1.subrange(24576, r1.len() as int)[32 + p] == r1[24608 + p]);
    }
    assert(r@.subrange(24608, r@.len() as int) =~= r0.subrange(24608, r0.len() as int));
}

/// Name:  unpack_pk
///
/// Description: De-serialize public key from a byte array;
///  approximate inverse of pack_pk
///
/// Arguments:   - Polyvec pk:  output public-key vector of polynomials
///  - [u8] seed:   output seed to generate matrix A
///  - const [u8] packedpk: input serialized public key
pub fn unpack_pk(pk: &mut Polyvec, seed: &mut [u8], packedpk: &[u8])
    requires
        packedpk@.len() >= KYBER_INDCPA_PUBLICKEYBYTES,
        old(seed)@.len() >= KYBER_SYMBYTES,
    ensures
        final(pk)@ == unpack_pk_vec_spec(packedpk@),
        polyvec_canonical(final(pk)@),
        final(seed)@.len() == old(seed)@.len(),
        final(seed)@.subrange(0, 32) == packedpk@.subrange(24576, 24608),
        final(seed)@.subrange(32, final(seed)@.len() as int) == old(seed)@.subrange(32, old(seed)@.len() as int),
{
    let ghost s0 = seed@;
    polyvec_frombytes(pk, packedpk);
    copy_bytes(seed, 0, packedpk, KYBER_POLYVECBYTES, KYBER_SYMBYTES);
    // move to Montgomery+NTT for use
    polyvec_tomont(pk);
    polyvec_ntt(pk);
    assert(seed@.subrange(32, seed@.len() as int) =~= s0.subrange(32, s0.len() as int));
}

/// Name:  pack_sk
///
/// Description: Serialize the secret key (taken back to the normal domain,
///  which is also left in `sk`)
///
/// Arguments: - [u8] r:  output serialized secret key
///  - const Polyvec sk: input vector of polynomials (secret key)
pub fn pack_sk(r: &mut [u8], sk: &mut Polyvec)
    requires
        old(r)@.len() >= KYBER_INDCPA_SECRETKEYBYTES,
        polyvec_canonical(old(sk)@),
    ensures
        final(sk)@ == pv_frommont(pv_invntt(old(sk)@)),
        polyvec_canonical(final(sk)@),
        final(r)@.len() == old(r)@.len(),
        final(r)@.subrange(0, 24576) == pack_sk_spec(old(sk)@),
        final(r)@.subrange(24576, final(r)@.len() as int) == old(r)@.subrange(24576, old(r)@.len() as int),
{
    polyvec_invntt_tomont(sk);
    polyvec_frommont(sk);
    polyvec_tobytes(r, sk);
}

/// Name:  unpack_sk
///
/// Description: De-serialize the secret key, inverse of pack_sk
///
/// Arguments:   - Polyvec sk: output vector of polynomials (secret key)
///  - const [u8] packedsk: input serialized secret key
pub fn unpack_sk(sk: &mut Polyvec, packedsk: &[u8])
    requires
        packedsk@.len() >= KYBER_INDCPA_SECRETKEYBYTES,
    ensures
        final(sk)@ == unpack_sk_spec(packedsk@),
        polyvec_canonical(final(sk)@),
{
    polyvec_frombytes(sk, packedsk);
    polyvec_tomont(sk);
    polyvec_ntt(sk);
}

/// Name:  pack_ciphertext
///
/// Description: Serialize the ciphertext as concatenation of the
///  serialized vector of polynomials b and the serialized polynomial v,
///  both taken out of the Montgomery domain
///
/// Arguments:   [u8] r:  the output serialized ciphertext
///  const poly *pk:  the input vector of polynomials b
///  const [u8] seed: the input polynomial v
pub fn pack_ciphertext(r: &mut [u8], b: &mut Polyvec, v: Poly)
    requires
        old(r)@.len() >= KYBER_INDCPA_BYTES,
    ensures
        *final(b) == *old(b),
        final(r)@.len() == old(r)@.len(),
        final(r)@.subrange(0, 26624) == polyvec_tobytes_spec(polyvec_frommont_words(*old(b)))
            + poly_tobytes_spec(poly_frommont_words(v)),
        polyvec_canonical(old(b)@) && canonical(v@) ==> final(r)@.subrange(0, 26624) == pack_ciphertext_spec(old(b)@, v@),
        final(r)@.subrange(26624, final(r)@.len() as int) == old(r)@.subrange(26624, old(r)@.len() as int),
{
    let ghost r0 = r@;
    let mut b_norm = *b;
    polyvec_frommont(&mut b_norm);
    let mut v_norm = v;
    poly_frommont(&mut v_norm);
    polyvec_compress(r, b_norm);
    let ghost r1 = r@;
    poly_tobytes_at(r, KYBER_POLYVECCOMPRESSEDBYTES, &v_norm);
    proof {
        assert(b_norm@ =~= polyvec_frommont_words(*b)) by {
            assert forall|i: int| 0 <= i < 12 implies #[trigger] b_norm@[i] == polyvec_frommont_words(*b)[i] by {
                assert(b_norm@[i] =~= polyvec_frommont_words(*b)[i]);
            }
        }
        assert(v_norm@ =~= poly_frommont_words(v));
        let want = polyvec_tobytes_spec(polyvec_frommont_words(*b)) + poly_tobytes_spec(poly_frommont_words(v));
        assert forall|p: int| 0 <= p < 26624 implies #[trigger] r@.subrange(0, 26624)[p] == want[p] by {
            if p < 24576 {
                assert(r@[p] == r1[p]);
                assert(r1.subrange(0, 24576)[p] == r1[p]);
            } else {
                assert(r@[24576 + (p - 24576)] == poly_tobytes_spec(v_norm@)[p - 24576]);
            }
        }
        assert(r@.subrange(0, 26624) =~= want);
        assert forall|p: int| 26624 <= p < r@.len() implies #[trigger] r@[p] == r0[p] by {
            assert(r1.subrange(24576, r1.len() as int)[p - 24576] == r0.subrange(24576, r0.len() as int)[p - 24576]);
        }
        assert(r@.subrange(26624, r@.len() as int) =~= r0.subrange(26624, r0.len() as int));
        if polyvec_canonical(b@) && canonical(v@) {
            lemma_frommont_words_canonical(*b, v);
        }
    }
}

/// On canonical coefficients the word-level Montgomery reduction is division
/// by 2^64 modulo q.
proof fn lemma_frommont_words_canonical(b: Polyvec, v: Poly)
    requires
        polyvec_canonical(b@),
        canonical(v@),
    ensures
        polyvec_frommont_words(b) == pv_frommont(b@),
        poly_frommont_words(v) == poly_frommont_spec(v@),
{
    lemma_constants();
    assert(q() < q() * mont_r()) by (nonlinear_arith) requires q() > 0, mont_r() > 1;
    assert forall|i: int| 0 <= i < 12 implies #[trigger] polyvec_frommont_words(b)[i] == pv_frommont(b@)[i] by {
        assert forall|k: int| 0 <= k < 256 implies #[trigger] polyvec_frommont_words(b)[i][k] == pv_frommont(b@)[i][k] by {
            assert(canonical(b@[i]));
            assert(b@[i][k] == b.vec@[i].coeffs@[k] as int);
            crate::reference::reduce::lemma_montgomery_reduce_spec(b@[i][k]);
            lemma_small_mod(montgomery_reduce_spec(b@[i][k]) as nat, q() as nat);
        }
        assert(polyvec_frommont_words(b)[i] =~= pv_frommont(b@)[i]);
    }
    assert(polyvec_frommont_words(b) =~= pv_frommont(b@));
    assert forall|k: int| 0 <= k < 256 implies #[trigger] poly_frommont_words(v)[k] == poly_frommont_spec(v@)[k] by {
        crate::reference::reduce::lemma_montgomery_reduce_spec(v@[k]);
        lemma_small_mod(montgomery_reduce_spec(v@[k]) as nat, q() as nat);
    }
    assert(poly_frommont_words(v) =~= poly_frommont_spec(v@));
}

/// Name:  unpack_ciphertext
///
/// Description: De-serialize ciphertext from a byte array;
///  approximate inverse of pack_ciphertext
///
/// Arguments:   - Polyvec b:   output vector of polynomials b
///  - poly *v:  output polynomial v
///  - const [u8] c:   input serialized ciphertext
pub fn unpack_ciphertext(b: &mut Polyvec, v: &mut Poly, c: &[u8])
    requires
        c@.len() >= KYBER_INDCPA_BYTES,
    ensures
        final(b)@ == polyvec_frombytes_spec(c@, 0),
        final(v)@ == poly_frombytes_spec(c@, 24576),
{
    polyvec_decompress(b, c);
    poly_frombytes_at(v, c, KYBER_POLYVECCOMPRESSEDBYTES);
}

// ---------------------------------------------------------------------------
// The public matrix.

/// The 16-byte little-endian word at offset `off` of `s`.
pub open spec fn le_u128_at(s: Seq<u8>, off: int) -> int {
    le_u64_at(s, off) as int + le_u64_at(s, off + 8) as int * 0x1_0000_0000_0000_0000
}

/// Bytes of XOF output drawn per matrix entry (16 per coefficient).
pub open spec fn matrix_stream_len() -> nat {
    4096
}

/// A polynomial sampled from a byte stream: coefficient `c` is the 16-byte
/// little-endian word at `16 c` reduced modulo q.
pub open spec fn sample_uniform_spec(stream: Seq<u8>) -> Seq<int> {
    Seq::new(256, |c: int| le_u128_at(stream, 16 * c) % q())
}

/// Matrix entry drawn from the XOF on `seed || x || y`, moved to the
/// Montgomery and NTT domains.
pub open spec fn matrix_entry_spec(seed: Seq<u8>, x: int, y: int) -> Seq<int> {
    ntt_spec(poly_tomont_spec(sample_uniform_spec(xof_spec(seed.subrange(0, 32), x as u8, y as u8, matrix_stream_len()))))
}

/// The value of sixteen little-endian bytes is the 128-bit word read there.
proof fn lemma_le_u128_value(s: Seq<u8>, off: int)
    ensures
        le_u128_at(s, off) == le_bytes_value(s, off, 16),
{
    lemma_le_bytes_split(s, off, 8, 8);
    reveal_with_fuel(pow256, 9);
    assert(pow256(8) == 0x1_0000_0000_0000_0000int);
    assert((8 + 8) as nat == 16nat);
    lemma_le_u64_value(s, off);
    lemma_le_u64_value(s, off + 8);
}

/// Matrix entries before the transform: coefficient `c` of the polynomial
/// behind entry `(i, j)` of A (or of its transpose) is the 16-byte
/// little-endian number at bytes `16 c .. 16 c + 16` of the XOF stream on
/// `seed || j || i` (or `seed || i || j`), reduced modulo q.
pub proof fn lemma_matrix_coeffs(seed: Seq<u8>, i: int, j: int, c: int)
    requires
        0 <= i < 12,
        0 <= j < 12,
        0 <= c < 256,
    ensures
        poly_frommont_spec(invntt_spec(matrix_spec(seed, false)[i][j]))[c]
            == le_bytes_value(xof_spec(seed.subrange(0, 32), j as u8, i as u8, 4096), 16 * c, 16) % q(),
        poly_frommont_spec(invntt_spec(matrix_spec(seed, true)[i][j]))[c]
            == le_bytes_value(xof_spec(seed.subrange(0, 32), i as u8, j as u8, 4096), 16 * c, 16) % q(),
{
    lemma_entry_coeff(seed, j, i, c);
    lemma_entry_coeff(seed, i, j, c);
}

/// See `lemma_matrix_coeffs`.
proof fn lemma_entry_coeff(seed: Seq<u8>, x: int, y: int, c: int)
    requires
        0 <= c < 256,
    ensures
        poly_frommont_spec(invntt_spec(matrix_entry_spec(seed, x, y)))[c]
            == le_bytes_value(xof_spec(seed.subrange(0, 32), x as u8, y as u8, 4096), 16 * c, 16) % q(),
{
    lemma_constants();
    let stream = xof_spec(seed.subrange(0, 32), x as u8, y as u8, matrix_stream_len());
    let p = sample_uniform_spec(stream);
    let tp = poly_tomont_spec(p);
    assert(canonical(tp)) by {
        assert forall|k: int| 0 <= k < tp.len() implies 0 <= #[trigger] tp[k] < q() by {
            lemma_mod_bound(p[k] * mont_r(), q());
        }
    }
    lemma_invntt_ntt(tp);
    lemma_sample_coeff(stream, c);
    lemma_mont_roundtrip(p[c]);
}

/// A sampled coefficient takes its own 16 bytes of the stream: coefficient
/// `c` is the little-endian number at bytes `16 c .. 16 c + 16` modulo q.
pub proof fn lemma_sample_coeff(stream: Seq<u8>, c: int)
    requires
        0 <= c < 256,
    ensures
        sample_uniform_spec(stream)[c] == le_bytes_value(stream, 16 * c, 16) % q(),
        0 <= sample_uniform_spec(stream)[c] < q(),
{
    lemma_constants();
    lemma_le_u128_value(stream, 16 * c);
    lemma_mod_bound(le_u128_at(stream, 16 * c), q());
}

/// The matrix A (entry (i, j) from the XOF on `seed || j || i`) or its
/// transpose (entry (i, j) from the XOF on `seed || i || j`).
pub open spec fn matrix_spec(seed: Seq<u8>, transposed: bool) -> Seq<Seq<Seq<int>>> {
    Seq::new(12, |i: int| Seq::new(12, |j: int|
        if transposed { matrix_entry_spec(seed, i, j) } else { matrix_entry_spec(seed, j, i) }))
}

/// A polynomial sampled from the first 4096 bytes of `stream`, reduced into
/// the Montgomery and NTT domains.
pub fn sample_entry(stream: &Vec<u8>) -> (p: Poly)
    requires
        stream@.len() == 4096,
    ensures
        p@ == ntt_spec(poly_tomont_spec(sample_uniform_spec(stream@))),
        canonical(p@),
{
    let mut p = Poly::new();
    let mut c: usize = 0;
    while c < KYBER_N
        invariant
            c <= 256,
            stream@.len() == 4096,
            forall|j: int| 0 <= j < c ==> #[trigger] p.coeffs@[j] as int == sample_uniform_spec(stream@)[j],
        decreases 256 - c,
    {
        let o = 16 * c;
        let lo: u64 = (stream[o] as u64) | ((stream[o + 1] as u64) << 8u64) | ((stream[o + 2] as u64) << 16u64)
            | ((stream[o + 3] as u64) << 24u64) | ((stream[o + 4] as u64) << 32u64) | ((stream[o + 5] as u64) << 40u64)
            | ((stream[o + 6] as u64) << 48u64) | ((stream[o + 7] as u64) << 56u64);
        let hi: u64 = (stream[o + 8] as u64) | ((stream[o + 9] as u64) << 8u64) | ((stream[o + 10] as u64) << 16u64)
            | ((stream[o + 11] as u64) << 24u64) | ((stream[o + 12] as u64) << 32u64) | ((stream[o + 13] as u64) << 40u64)
            | ((stream[o + 14] as u64) << 48u64) | ((stream[o + 15] as u64) << 56u64);
        let val: u128 = (lo as u128) | ((hi as u128) << 64u128);
        proof {
            assert((lo as u128) | ((hi as u128) << 64u128) == (lo as u128) + (hi as u128) * 0x1_0000_0000_0000_0000u128) by (bit_vector);
            lemma_constants();
            lemma_mod_bound(val as int, q());
            assert(le_u64_at(stream@, o as int) == lo);
            assert(le_u64_at(stream@, o + 8) == hi);
        }
        p.coeffs[c] = (val % KYBER_Q) as i128;
        c = c + 1;
    }
    let ghost p0 = p@;
    assert(p0 =~= sample_uniform_spec(stream@));
    poly_tomont(&mut p);
    assert(p@ =~= poly_tomont_spec(p0));
    proof {
        lemma_constants();
        assert forall|k: int| 0 <= k < 256 implies 0 <= #[trigger] p@[k] < q() by {
            lemma_mod_bound(p0[k] * mont_r(), q());
        }
    }
    poly_ntt(&mut p);
    p
}

/// Name:  gen_matrix
///
/// Description: Deterministically generate matrix A (or the transpose of A)
///  from a seed. Entries of the matrix are polynomials that look
///  uniformly random: 16 XOF bytes reduced modulo q per coefficient, then
///  moved to the Montgomery and NTT domains.
///
/// Arguments:   - Polyvec a:   ouptput matrix A
///  - const [u8] seed: input seed
///  - bool transposed: boolean deciding whether A or A^T is generated
pub fn gen_matrix(a: &mut [Polyvec], seed: &[u8], transposed: bool)
    requires
        old(a)@.len() >= KYBER_K,
        seed@.len() >= KYBER_SYMBYTES,
    ensures
        final(a)@.len() == old(a)@.len(),
        forall|i: int| 0 <= i < 12 ==> #[trigger] final(a)@[i]@ == matrix_spec(seed@, transposed)[i],
        forall|i: int| 0 <= i < 12 ==> polyvec_canonical(#[trigger] final(a)@[i]@),
        forall|i: int| 12 <= i < final(a)@.len() ==> #[trigger] final(a)@[i] == old(a)@[i],
{
    let ghost a0 = a@;
    let mut i: usize = 0;
    while i < KYBER_K
        invariant
            i <= 12,
            a@.len() == a0.len(),
            a0.len() >= 12,
            seed@.len() >= 32,
            forall|k: int| 0 <= k < i ==> #[trigger] a@[k]@ == matrix_spec(seed@, transposed)[k],
            forall|k: int| 0 <= k < i ==> polyvec_canonical(#[trigger] a@[k]@),
            forall|k: int| i <= k < a@.len() ==> #[trigger] a@[k] == a0[k],
        decreases 12 - i,
    {
        let mut row = a[i];
        let mut j: usize = 0;
        while j < KYBER_K
            invariant
                i < 12,
                j <= 12,
                seed@.len() >= 32,
                forall|k: int| 0 <= k < j ==> #[trigger] row.vec@[k]@ == matrix_spec(seed@, transposed)[i as int][k],
                forall|k: int| 0 <= k < j ==> canonical(#[trigger] row.vec@[k]@),
            decreases 12 - j,
        {
            let stream = if transposed {
                xof(seed, i as u8, j as u8, KYBER_N * 16)
            } else {
                xof(seed, j as u8, i as u8, KYBER_N * 16)
            };
            // Move to Montgomery then NTT so later basemul sees Montgomery inputs.
            let p = sample_entry(&stream);
            row.vec[j] = p;
            j = j + 1;
        }
        a[i] = row;
        proof {
            assert(row@ =~= matrix_spec(seed@, transposed)[i as int]);
            assert(polyvec_canonical(row@)) by {
                assert forall|k: int| 0 <= k < 12 implies #[trigger] canonical(row@[k]) by {
                    assert(row@[k] == row.vec@[k]@);
                }
            }
        }
        i = i + 1;
    }
}

/// Name:  gen_a
///
/// Description: The matrix A.
pub fn gen_a(a: &mut [Polyvec], b: &[u8])
    requires
        old(a)@.len() >= KYBER_K,
        b@.len() >= KYBER_SYMBYTES,
    ensures
        final(a)@.len() == old(a)@.len(),
        forall|i: int| 0 <= i < 12 ==> #[trigger] final(a)@[i]@ == matrix_spec(b@, false)[i],
        forall|i: int| 0 <= i < 12 ==> polyvec_canonical(#[trigger] final(a)@[i]@),
        forall|i: int| 12 <= i < final(a)@.len() ==> #[trigger] final(a)@[i] == old(a)@[i],
{
    gen_matrix(a, b, false);
}

/// Name:  gen_at
///
/// Description: The transpose of the matrix A.
pub fn gen_at(a: &mut [Polyvec], b: &[u8])
    requires
        old(a)@.len() >= KYBER_K,
        b@.len() >= KYBER_SYMBYTES,
    ensures
        final(a)@.len() == old(a)@.len(),
        forall|i: int| 0 <= i < 12 ==> #[trigger] final(a)@[i]@ == matrix_spec(b@, true)[i],
        forall|i: int| 0 <= i < 12 ==> polyvec_canonical(#[trigger] final(a)@[i]@),
        forall|i: int| 12 <= i < final(a)@.len() ==> #[trigger] final(a)@[i] == old(a)@[i],
{
    gen_matrix(a, b, true);
}

// ---------------------------------------------------------------------------
// Key generation, encryption and decryption.

/// Coefficient-wise sum.
pub open spec fn poly_add_spec(a: Seq<int>, b: Seq<int>) -> Seq<int> {
    Seq::new(256, |k: int| a[k] + b[k])
}

/// Coefficient-wise difference.
pub open spec fn poly_sub_spec(a: Seq<int>, b: Seq<int>) -> Seq<int> {
    Seq::new(256, |k: int| a[k] - b[k])
}

/// A centered binomial noise polynomial (eta = 2) from a seed and a nonce.
pub open spec fn noise_spec(seed: Seq<u8>, nonce: int) -> Seq<int> {
    cbd2_spec(prf_spec(seed, nonce as u8, 128))
}

/// A vector of noise polynomials with nonces `nonce0 .. nonce0 + 12`, moved
/// to the Montgomery domain.
pub open spec fn noise_vec_spec(seed: Seq<u8>, nonce0: int) -> Seq<Seq<int>> {
    Seq::new(12, |i: int| poly_tomont_spec(noise_spec(seed, nonce0 + i)))
}

/// The 64 bytes that key generation derives from its 32 random bytes.
pub open spec fn keypair_seeds(coins: Seq<u8>) -> Seq<u8> {
    spec_sha3_512(coins.subrange(0, 32))
}

/// The secret vector s (NTT and Montgomery domains) of the key pair.
pub open spec fn keypair_s_hat(coins: Seq<u8>) -> Seq<Seq<int>> {
    pv_ntt(noise_vec_spec(keypair_seeds(coins).subrange(32, 64), 0))
}

/// The public vector t = A s + e (NTT and Montgomery domains) of the key pair.
pub open spec fn keypair_t_hat(coins: Seq<u8>) -> Seq<Seq<int>> {
    let a = matrix_spec(keypair_seeds(coins).subrange(0, 32), false);
    let s = keypair_s_hat(coins);
    let e = pv_ntt(noise_vec_spec(keypair_seeds(coins).subrange(32, 64), 12));
    Seq::new(12, |i: int| poly_reduce_spec(poly_add_spec(polyvec_basemul_acc_spec(a[i], s), e[i])))
}

/// The serialized public key derived from 32 random bytes.
pub open spec fn indcpa_keypair_pk_spec(coins: Seq<u8>) -> Seq<u8> {
    pack_pk_spec(keypair_t_hat(coins), keypair_seeds(coins).subrange(0, 32))
}

/// The serialized secret key derived from 32 random bytes.
pub open spec fn indcpa_keypair_sk_spec(coins: Seq<u8>) -> Seq<u8> {
    pack_sk_spec(keypair_s_hat(coins))
}

/// Fills a vector with noise polynomials, nonces `nonce .. nonce + 12`, each
/// moved to the Montgomery domain; `eta2` selects the second noise sampler
/// (same distribution as the first in this parameter set).
fn noise_vec(v: &mut Polyvec, seed: &[u8], nonce: u8, eta2: bool)
    requires
        seed@.len() == KYBER_SYMBYTES,
        nonce <= 243,
    ensures
        final(v)@ == noise_vec_spec(seed@, nonce as int),
        polyvec_canonical(final(v)@),
{
    let mut n = nonce;
    let mut i: usize = 0;
    while i < KYBER_K
        invariant
            i <= 12,
            n as int == nonce + i,
            nonce <= 243,
            seed@.len() == 32,
            forall|j: int| 0 <= j < i ==> #[trigger] v.vec@[j]@ == noise_vec_spec(seed@, nonce as int)[j],
            forall|j: int| 0 <= j < i ==> canonical(#[trigger] v.vec@[j]@),
        decreases 12 - i,
    {
        let mut p = v.vec[i];
        if eta2 {
            poly_getnoise_eta2(&mut p, seed, n);
        } else {
            poly_getnoise_eta1(&mut p, seed, n);
        }
        let ghost p0 = p@;
        poly_tomont(&mut p);
        proof {
            assert(p@ =~= poly_tomont_spec(noise_spec(seed@, nonce + i)));
            lemma_constants();
            assert forall|k: int| 0 <= k < 256 implies 0 <= #[trigger] p@[k] < q() by {
                lemma_mod_bound(p0[k] * mont_r(), q());
            }
        }
        v.vec[i] = p;
        n = n + 1;
        i = i + 1;
    }
    assert(v@ =~= noise_vec_spec(seed@, nonce as int));
    assert(polyvec_canonical(v@)) by {
        assert forall|k: int| 0 <= k < 12 implies #[trigger] canonical(v@[k]) by {
            assert(v@[k] == v.vec@[k]@);
        }
    }
}

/// The zero matrix, as a vector of KYBER_K rows.
fn new_matrix() -> (a: Vec<Polyvec>)
    ensures
        a@.len() == 12,
{
    let mut a: Vec<Polyvec> = Vec::new();
    let mut i: usize = 0;
    while i < KYBER_K
        invariant
            i <= 12,
            a@.len() == i,
        decreases 12 - i,
    {
        a.push(Polyvec::new());
        i = i + 1;
    }
    a
}

/// Name:  indcpa_keypair
///
/// Description: Generates public and private key for the CPA-secure
///  public-key encryption scheme underlying Kyber, deterministically from 32
///  random bytes
///
/// Arguments: - [u8] pk: output public key (length KYBER_INDCPA_PUBLICKEYBYTES)
///  - [u8] sk: output private key (length KYBER_INDCPA_SECRETKEYBYTES)
///  - const [u8] coins: the 32 random bytes
pub fn indcpa_keypair(pk: &mut [u8], sk: &mut [u8], coins: &[u8])
    requires
        old(pk)@.len() >= KYBER_INDCPA_PUBLICKEYBYTES,
        old(sk)@.len() >= KYBER_INDCPA_SECRETKEYBYTES,
        coins@.len() == KYBER_SYMBYTES,
    ensures
        final(pk)@.len() == old(pk)@.len(),
        final(sk)@.len() == old(sk)@.len(),
        final(pk)@.subrange(0, 24608) == indcpa_keypair_pk_spec(coins@),
        final(sk)@.subrange(0, 24576) == indcpa_keypair_sk_spec(coins@),
        final(pk)@.subrange(24608, final(pk)@.len() as int) == old(pk)@.subrange(24608, old(pk)@.len() as int),
        final(sk)@.subrange(24576, final(sk)@.len() as int) == old(sk)@.subrange(24576, old(sk)@.len() as int),
        keypair_seeds(coins@).len() == 64,
{
    let mut a = new_matrix();
    let mut e = Polyvec::new();
    let mut pkpv = Polyvec::new();
    let mut skpv = Polyvec::new();
    let mut buf = [0u8; 64];

    hash_g(&mut buf, coins, KYBER_SYMBYTES);
    assert(coins@.subrange(0, 32) =~= coins@);
    let mut publicseed = [0u8; 32];
    let mut noiseseed = [0u8; 32];
    copy_bytes(&mut publicseed, 0, &buf, 0, KYBER_SYMBYTES);
    copy_bytes(&mut noiseseed, 0, &buf, KYBER_SYMBYTES, KYBER_SYMBYTES);
    proof {
        assert(buf@.subrange(0, 64) =~= buf@);
        assert(buf@ == keypair_seeds(coins@));
        assert(noiseseed@.subrange(0, 32) =~= noiseseed@);
        assert(publicseed@.subrange(0, 32) =~= publicseed@);
        assert(publicseed@ =~= keypair_seeds(coins@).subrange(0, 32));
        assert(noiseseed@ =~= keypair_seeds(coins@).subrange(32, 64));
        assert(publicseed@.subrange(0, 32) =~= publicseed@);
    }
    gen_a(a.as_mut_slice(), &publicseed);

    noise_vec(&mut skpv, &noiseseed, 0, false);
    noise_vec(&mut e, &noiseseed, 12, false);

    polyvec_ntt(&mut skpv);
    polyvec_ntt(&mut e);

    // matrix-vector multiplication
    let ghost amat = matrix_spec(publicseed@, false);
    let mut i: usize = 0;
    while i < KYBER_K
        invariant
            i <= 12,
            a@.len() == 12,
            forall|k: int| 0 <= k < 12 ==> #[trigger] a@[k]@ == amat[k],
            forall|k: int| 0 <= k < 12 ==> polyvec_canonical(#[trigger] a@[k]@),
            polyvec_canonical(skpv@),
            forall|k: int| 0 <= k < i ==> #[trigger] pkpv.vec@[k]@ == polyvec_basemul_acc_spec(amat[k], skpv@),
            forall|k: int| 0 <= k < i ==> canonical(#[trigger] pkpv.vec@[k]@),
        decreases 12 - i,
    {
        let mut p = pkpv.vec[i];
        proof { assert(polyvec_canonical(a@[i as int]@)); }
        polyvec_basemul_acc_montgomery(&mut p, &a[i], &skpv);
        pkpv.vec[i] = p;
        i = i + 1;
    }
    let ghost pk0 = pkpv@;
    proof {
        lemma_constants();
        assert forall|k: int, c: int| 0 <= k < 12 && 0 <= c < 256 implies i128::MIN <= #[trigger] pkpv@[k][c] + e@[k][c] <= i128::MAX by {
            assert(pkpv@[k] == pkpv.vec@[k]@);
            assert(canonical(pkpv@[k]));
            assert(canonical(e@[k]));
        }
    }
    polyvec_add(&mut pkpv, &e);
    let ghost pk1 = pkpv@;
    polyvec_reduce(&mut pkpv);
    proof {
        assert forall|k: int| 0 <= k < 12 implies #[trigger] pkpv@[k] == keypair_t_hat(coins@)[k] by {
            assert(pk0[k] == pkpv.vec@[k]@ || true);
            assert(pkpv@[k] =~= keypair_t_hat(coins@)[k]);
        }
        assert(pkpv@ =~= keypair_t_hat(coins@));
        assert(skpv@ =~= keypair_s_hat(coins@));
    }

    pack_sk(sk, &mut skpv);
    pack_pk(pk, &mut pkpv, &publicseed);
}

/// The ciphertext vector b = A^T r + e1 (normal domain values in Montgomery
/// form, reduced) of an encryption.
pub open spec fn enc_b_spec(pk: Seq<u8>, coins: Seq<u8>) -> Seq<Seq<int>> {
    let at = matrix_spec(pk.subrange(24576, 24608), true);
    let sp = pv_ntt(noise_vec_spec(coins, 0));
    let ep = noise_vec_spec(coins, 12);
    Seq::new(12, |i: int| poly_reduce_spec(poly_add_spec(invntt_spec(polyvec_basemul_acc_spec(at[i], sp)), ep[i])))
}

/// The ciphertext polynomial v = t^T r + e2 + encode(m) of an encryption whose
/// e2 is uniform in [-bound, bound).
pub open spec fn enc_v_spec(m: Seq<u8>, pk: Seq<u8>, coins: Seq<u8>, bound: int) -> Seq<int> {
    let pkpv = unpack_pk_vec_spec(pk);
    let sp = pv_ntt(noise_vec_spec(coins, 0));
    let epp = poly_tomont_spec(uniform_bounded_spec(prf_spec(coins, 24, uniform_buf_len()), bound));
    let k = poly_tomont_spec(poly_frommsg_spec(m));
    poly_reduce_spec(poly_add_spec(poly_add_spec(invntt_spec(polyvec_basemul_acc_spec(pkpv, sp)), epp), k))
}

/// The ciphertext of message `m` under public key `pk` with coins `coins`.
pub open spec fn indcpa_enc_spec(m: Seq<u8>, pk: Seq<u8>, coins: Seq<u8>, bound: int) -> Seq<u8> {
    pack_ciphertext_spec(enc_b_spec(pk, coins), enc_v_spec(m, pk, coins, bound))
}

/// The message recovered from ciphertext `c` with secret key `sk`.
pub open spec fn indcpa_dec_spec(c: Seq<u8>, sk: Seq<u8>) -> Seq<u8> {
    let b = pv_ntt(pv_tomont(polyvec_frombytes_spec(c, 0)));
    let v = poly_frombytes_spec(c, 24576);
    let skpv = unpack_sk_spec(sk);
    let mp = poly_frommont_spec(invntt_spec(polyvec_basemul_acc_spec(skpv, b)));
    poly_tomsg_spec(poly_reduce_spec(poly_sub_spec(mp, v)))
}

/// Name:  indcpa_enc_inner
///
/// Description: Encryption function of the CPA-secure public-key encryption
///  scheme underlying Kyber, with the bound of the uniform error added to v.
pub(crate) fn indcpa_enc_inner(c: &mut [u8], m: &[u8], pk: &[u8], coins: &[u8], epp_bound: i128)
    requires
        old(c)@.len() >= KYBER_INDCPA_BYTES,
        m@.len() >= KYBER_SYMBYTES,
        pk@.len() >= KYBER_INDCPA_PUBLICKEYBYTES,
        coins@.len() == KYBER_SYMBYTES,
        0 < epp_bound < 0x4000_0000_0000_0000,
    ensures
        final(c)@.len() == old(c)@.len(),
        final(c)@.subrange(0, 26624) == indcpa_enc_spec(m@, pk@, coins@, epp_bound as int),
        final(c)@.subrange(26624, final(c)@.len() as int) == old(c)@.subrange(26624, old(c)@.len() as int),
{
    proof { lemma_constants(); }
    let mut at = new_matrix();
    let mut sp = Polyvec::new();
    let mut pkpv = Polyvec::new();
    let mut ep = Polyvec::new();
    let mut b = Polyvec::new();
    let mut v = Poly::new();
    let mut k = Poly::new();
    let mut epp = Poly::new();
    let mut seed = [0u8; KYBER_SYMBYTES];

    unpack_pk(&mut pkpv, &mut seed, pk);
    assert(seed@.subrange(0, 32) =~= seed@);
    poly_frommsg(&mut k, m);
    let ghost k0 = k@;
    poly_tomont(&mut k);
    assert(k@ =~= poly_tomont_spec(poly_frommsg_spec(m@)));
    gen_at(at.as_mut_slice(), &seed);

    noise_vec(&mut sp, coins, 0, false);
    noise_vec(&mut ep, coins, 12, true);
    poly_getnoise_uniform_bounded(&mut epp, coins, 24, epp_bound);
    let ghost epp0 = epp@;
    poly_tomont(&mut epp);
    assert(epp@ =~= poly_tomont_spec(epp0));

    polyvec_ntt(&mut sp);

    // matrix-vector multiplication
    let ghost atm = matrix_spec(seed@, true);
    let mut i: usize = 0;
    while i < KYBER_K
        invariant
            i <= 12,
            at@.len() == 12,
            forall|j: int| 0 <= j < 12 ==> #[trigger] at@[j]@ == atm[j],
            forall|j: int| 0 <= j < 12 ==> polyvec_canonical(#[trigger] at@[j]@),
            polyvec_canonical(sp@),
            forall|j: int| 0 <= j < i ==> #[trigger] b.vec@[j]@ == polyvec_basemul_acc_spec(atm[j], sp@),
            forall|j: int| 0 <= j < i ==> canonical(#[trigger] b.vec@[j]@),
        decreases 12 - i,
    {
        let mut p = b.vec[i];
        proof { assert(polyvec_canonical(at@[i as int]@)); }
        polyvec_basemul_acc_montgomery(&mut p, &at[i], &sp);
        b.vec[i] = p;
        i = i + 1;
    }
    let ghost b0 = b@;
    proof {
        assert(polyvec_canonical(b@)) by {
            assert forall|j: int| 0 <= j < 12 implies #[trigger] canonical(b@[j]) by {
                assert(b@[j] == b.vec@[j]@);
            }
        }
    }

    polyvec_basemul_acc_montgomery(&mut v, &pkpv, &sp);
    polyvec_invntt_tomont(&mut b);
    poly_invntt_tomont(&mut v);
    let ghost b1 = b@;
    let ghost v1 = v@;

    proof {
        assert forall|j: int, t: int| 0 <= j < 12 && 0 <= t < 256 implies i128::MIN <= #[trigger] b@[j][t] + ep@[j][t] <= i128::MAX by {
            assert(canonical(b@[j]));
            assert(canonical(ep@[j]));
        }
    }
    polyvec_add(&mut b, &ep);
    proof {
        assert forall|t: int| 0 <= t < 256 implies i128::MIN <= #[trigger] v@[t] + epp@[t] <= i128::MAX by {
            lemma_mod_bound(epp0[t] * mont_r(), q());
        }
    }
    poly_add(&mut v, &epp);
    let ghost v2 = v@;
    proof {
        assert forall|t: int| 0 <= t < 256 implies i128::MIN <= #[trigger] v@[t] + k@[t] <= i128::MAX by {
            lemma_mod_bound(epp0[t] * mont_r(), q());
            lemma_mod_bound(k0[t] * mont_r(), q());
        }
    }
    poly_add(&mut v, &k);
    let ghost b2 = b@;
    let ghost v3 = v@;
    polyvec_reduce(&mut b);
    poly_reduce(&mut v);
    proof {
        assert forall|j: int| 0 <= j < 12 implies #[trigger] b@[j] == enc_b_spec(pk@, coins@)[j] by {
            assert(b@[j] =~= enc_b_spec(pk@, coins@)[j]);
        }
        assert(b@ =~= enc_b_spec(pk@, coins@));
        assert(v@ =~= enc_v_spec(m@, pk@, coins@, epp_bound as int));
        assert(polyvec_canonical(b@)) by {
            assert forall|j: int| 0 <= j < 12 implies #[trigger] canonical(b@[j]) by {
                assert forall|t: int| 0 <= t < 256 implies 0 <= #[trigger] b@[j][t] < q() by {
                    lemma_mod_bound(b2[j][t], q());
                }
            }
        }
        assert(canonical(v@)) by {
            assert forall|t: int| 0 <= t < 256 implies 0 <= #[trigger] v@[t] < q() by {
                lemma_mod_bound(v3[t], q());
            }
        }
    }
    pack_ciphertext(c, &mut b, v);
}

/// Name:  indcpa_enc
///
/// Description: Encryption function of the CPA-secure
///  public-key encryption scheme underlying Kyber.
///
/// Arguments: - [u8] c:  output ciphertext (length KYBER_INDCPA_BYTES)
///  - const [u8] m:  input message (length KYBER_SYMBYTES)
///  - const [u8] pk:   input public key (length KYBER_INDCPA_PUBLICKEYBYTES)
///  - const [u8] coin: input random coins used as seed (length KYBER_SYMBYTES)
///      to deterministically generate all randomness
pub fn indcpa_enc(c: &mut [u8], m: &[u8], pk: &[u8], coins: &[u8])
    requires
        old(c)@.len() >= KYBER_INDCPA_BYTES,
        m@.len() >= KYBER_SYMBYTES,
        pk@.len() >= KYBER_INDCPA_PUBLICKEYBYTES,
        coins@.len() == KYBER_SYMBYTES,
    ensures
        final(c)@.len() == old(c)@.len(),
        final(c)@.subrange(0, 26624) == indcpa_enc_spec(m@, pk@, coins@, KYBER_EPP_UNIFORM_BOUND as int),
        final(c)@.subrange(26624, final(c)@.len() as int) == old(c)@.subrange(26624, old(c)@.len() as int),
{
    indcpa_enc_inner(c, m, pk, coins, KYBER_EPP_UNIFORM_BOUND);
}

/// INDCPA encryption with an explicit bounded-uniform `epp` range.
///
/// This is intended for hazmat experiments (for example reliability sweeps
/// over candidate bounds) while the default API keeps using
/// `KYBER_EPP_UNIFORM_BOUND`.
pub fn indcpa_enc_with_epp_bound(c: &mut [u8], m: &[u8], pk: &[u8], coins: &[u8], epp_bound: i128)
    requires
        old(c)@.len() >= KYBER_INDCPA_BYTES,
        m@.len() >= KYBER_SYMBYTES,
        pk@.len() >= KYBER_INDCPA_PUBLICKEYBYTES,
        coins@.len() == KYBER_SYMBYTES,
        0 < epp_bound < 0x4000_0000_0000_0000,
    ensures
        final(c)@.len() == old(c)@.len(),
        final(c)@.subrange(0, 26624) == indcpa_enc_spec(m@, pk@, coins@, epp_bound as int),
        final(c)@.subrange(26624, final(c)@.len() as int) == old(c)@.subrange(26624, old(c)@.len() as int),
{
    indcpa_enc_inner(c, m, pk, coins, epp_bound);
}

/// Name:  indcpa_dec
///
/// Description: Decryption function of the CPA-secure
///  public-key encryption scheme underlying Kyber.
///
/// Arguments:   - [u8] m:  output decrypted message (of length KYBER_SYMBYTES)
///  - const [u8] c:  input ciphertext (of length KYBER_INDCPA_BYTES)
///  - const [u8] sk: input secret key (of length KYBER_INDCPA_SECRETKEYBYTES)
pub fn indcpa_dec(m: &mut [u8], c: &[u8], sk: &[u8])
    requires
        old(m)@.len() >= KYBER_SYMBYTES,
        c@.len() >= KYBER_INDCPA_BYTES,
        sk@.len() >= KYBER_INDCPA_SECRETKEYBYTES,
    ensures
        final(m)@.len() == old(m)@.len(),
        final(m)@.subrange(0, 32) == indcpa_dec_spec(c@, sk@),
        final(m)@.subrange(32, final(m)@.len() as int) == old(m)@.subrange(32, old(m)@.len() as int),
{
    proof { lemma_constants(); }
    let mut b = Polyvec::new();
    let mut skpv = Polyvec::new();
    let mut v = Poly::new();
    let mut mp = Poly::new();

    unpack_ciphertext(&mut b, &mut v, c);
    unpack_sk(&mut skpv, sk);

    polyvec_tomont(&mut b);
    polyvec_ntt(&mut b);
    polyvec_basemul_acc_montgomery(&mut mp, &skpv, &b);
    poly_invntt_tomont(&mut mp);
    let ghost mp0 = mp@;
    poly_frommont(&mut mp);
    proof {
        assert forall|t: int| 0 <= t < 256 implies #[trigger] mp@[t] == poly_frommont_spec(mp0)[t] by {
            assert(0 <= mp0[t] < q());
            assert(q() < q() * mont_r()) by (nonlinear_arith) requires q() > 0, mont_r() > 1;
        }
        assert(mp@ =~= poly_frommont_spec(mp0));
        assert forall|t: int| 0 <= t < 256 implies i128::MIN <= #[trigger] mp@[t] - v@[t] <= i128::MAX by {
            lemma_mod_bound(mp0[t] * mont_r_inv(), q());
            assert(v@[t] == le_u64_at(c@, 24576 + 8 * t) as int);
        }
    }
    let ghost mp1 = mp@;
    poly_sub(&mut mp, &v);
    let ghost mp2 = mp@;
    poly_reduce(&mut mp);
    assert(mp@ =~= poly_reduce_spec(poly_sub_spec(mp1, v@)));
    poly_tomsg(m, mp);
}

// ---------------------------------------------------------------------------
// Laws of the encodings.

/// A vector of 12 polynomials of 256 canonical coefficients.
pub open spec fn polyvec_wf(v: Seq<Seq<int>>) -> bool {
    &&& v.len() == 12
    &&& forall|i: int| 0 <= i < 12 ==> (#[trigger] v[i]).len() == 256 && canonical(v[i])
}

/// De-serialization only reads the 2048 bytes of its window.
proof fn lemma_frombytes_window(s: Seq<u8>, off: int, t: Seq<u8>)
    requires
        t.len() >= 2048,
        forall|p: int| 0 <= p < 2048 ==> #[trigger] t[p] == s[off + p],
    ensures
        poly_frombytes_spec(s, off) == poly_frombytes_spec(t, 0),
{
    assert forall|k: int| 0 <= k < 256 implies #[trigger] poly_frombytes_spec(s, off)[k] == poly_frombytes_spec(t, 0)[k] by {
        assert(t[8 * k + 0] == s[off + 8 * k]);
        assert(t[8 * k + 1] == s[off + 8 * k + 1]);
        assert(t[8 * k + 2] == s[off + 8 * k + 2]);
        assert(t[8 * k + 3] == s[off + 8 * k + 3]);
        assert(t[8 * k + 4] == s[off + 8 * k + 4]);
        assert(t[8 * k + 5] == s[off + 8 * k + 5]);
        assert(t[8 * k + 6] == s[off + 8 * k + 6]);
        assert(t[8 * k + 7] == s[off + 8 * k + 7]);
    }
    assert(poly_frombytes_spec(s, off) =~= poly_frombytes_spec(t, 0));
}

/// The bytes of polynomial `i` inside a serialized vector.
proof fn lemma_polyvec_bytes_window(x: Seq<Seq<int>>, extra: Seq<u8>, i: int)
    requires
        0 <= i < 12,
    ensures
        forall|p: int| 0 <= p < 2048 ==> #[trigger] poly_tobytes_spec(x[i])[p] == (polyvec_tobytes_spec(x) + extra)[2048 * i + p],
{
    assert forall|p: int| 0 <= p < 2048 implies #[trigger] poly_tobytes_spec(x[i])[p] == (polyvec_tobytes_spec(x) + extra)[2048 * i + p] by {
        let pp = 2048 * i + p;
        assert(pp / 2048 == i && pp % 2048 == p);
    }
}

/// Reading a serialized vector back gives the vector, whatever follows it.
pub proof fn lemma_polyvec_bytes_roundtrip(x: Seq<Seq<int>>, extra: Seq<u8>)
    requires
        polyvec_wf(x),
    ensures
        polyvec_frombytes_spec(polyvec_tobytes_spec(x) + extra, 0) == x,
{
    let s = polyvec_tobytes_spec(x) + extra;
    assert forall|i: int| 0 <= i < 12 implies #[trigger] polyvec_frombytes_spec(s, 0)[i] == x[i] by {
        lemma_poly_bytes_roundtrip(x[i]);
        lemma_polyvec_bytes_window(x, extra, i);
        lemma_frombytes_window(s, 2048 * i, poly_tobytes_spec(x[i]));
    }
    assert(polyvec_frombytes_spec(s, 0) =~= x);
}

/// The inverse transform produces canonical coefficients.
pub(crate) proof fn lemma_invntt_canonical(x: Seq<int>)
    requires
        x.len() == 256,
    ensures
        invntt_spec(x).len() == 256,
        canonical(invntt_spec(x)),
{
    lemma_constants();
    crate::reference::ntt::lemma_invntt_len(x);
    assert forall|j: int| 0 <= j < 256 implies 0 <= #[trigger] invntt_spec(x)[j] < q() by {
        let y = crate::reference::ntt::invntt_layers(x, 7);
        lemma_mod_bound(y[j] * (crate::reference::ntt::INV_SCALE as int) * mont_r_inv(), q());
    }
}

/// Montgomery conversion there and back is the identity on residues.
pub(crate) proof fn lemma_mont_roundtrip(x: int)
    requires
        0 <= x < q(),
    ensures
        ((((x * mont_r_inv()) % q()) * mont_r()) % q()) == x,
        ((((x * mont_r()) % q()) * mont_r_inv()) % q()) == x,
{
    lemma_constants();
    let qq = q();
    let r = mont_r();
    let ri = mont_r_inv();
    lemma_mul_mod_noop_left(x * ri, r, qq);
    lemma_mul_mod_noop_left(x * r, ri, qq);
    assert((x * ri) * r == x * (r * ri)) by (nonlinear_arith);
    assert((x * r) * ri == x * (r * ri)) by (nonlinear_arith);
    lemma_mul_mod_noop_right(x, r * ri, qq);
    lemma_small_mod(x as nat, qq as nat);
}

/// Taking a vector out of the NTT and Montgomery domains and back again
/// gives the vector.
pub(crate) proof fn lemma_domain_roundtrip(x: Seq<Seq<int>>)
    requires
        polyvec_wf(x),
    ensures
        pv_ntt(pv_tomont(pv_frommont(pv_invntt(x)))) == x,
        polyvec_wf(pv_frommont(pv_invntt(x))),
{
    lemma_constants();
    assert forall|i: int| 0 <= i < 12 implies #[trigger] pv_ntt(pv_tomont(pv_frommont(pv_invntt(x))))[i] == x[i]
        && pv_frommont(pv_invntt(x))[i].len() == 256 && canonical(pv_frommont(pv_invntt(x))[i]) by {
        let y = invntt_spec(x[i]);
        lemma_invntt_canonical(x[i]);
        let z = poly_frommont_spec(y);
        assert forall|k: int| 0 <= k < 256 implies #[trigger] poly_tomont_spec(z)[k] == y[k] by {
            lemma_mont_roundtrip(y[k]);
        }
        assert(poly_tomont_spec(z) =~= y);
        lemma_ntt_invntt(x[i]);
        assert forall|k: int| 0 <= k < 256 implies 0 <= #[trigger] z[k] < q() by {
            lemma_mod_bound(y[k] * mont_r_inv(), q());
        }
    }
    assert(pv_ntt(pv_tomont(pv_frommont(pv_invntt(x)))) =~= x);
}

/// Unpacking a packed public key gives back its NTT-domain vector and its
/// seed.
pub proof fn lemma_pk_roundtrip(pk: Seq<Seq<int>>, seed: Seq<u8>)
    requires
        polyvec_wf(pk),
        seed.len() >= 32,
    ensures
        pack_pk_spec(pk, seed).len() == 24608,
        unpack_pk_vec_spec(pack_pk_spec(pk, seed)) == pk,
        pack_pk_spec(pk, seed).subrange(24576, 24608) == seed.subrange(0, 32),
{
    lemma_domain_roundtrip(pk);
    lemma_polyvec_bytes_roundtrip(pv_frommont(pv_invntt(pk)), seed.subrange(0, 32));
    assert(pack_pk_spec(pk, seed).subrange(24576, 24608) =~= seed.subrange(0, 32));
}

/// Unpacking a packed secret key gives back its NTT-domain vector.
pub proof fn lemma_sk_roundtrip(sk: Seq<Seq<int>>)
    requires
        polyvec_wf(sk),
    ensures
        pack_sk_spec(sk).len() == 24576,
        unpack_sk_spec(pack_sk_spec(sk)) == sk,
{
    lemma_domain_roundtrip(sk);
    lemma_polyvec_bytes_roundtrip(pv_frommont(pv_invntt(sk)), Seq::empty());
    assert(pack_sk_spec(sk) + Seq::<u8>::empty() =~= pack_sk_spec(sk));
}

/// Montgomery conversion there and back on a polynomial.
proof fn lemma_poly_mont_roundtrip(v: Seq<int>)
    requires
        v.len() == 256,
        canonical(v),
    ensures
        poly_frommont_spec(poly_tomont_spec(v)) == v,
{
    assert forall|k: int| 0 <= k < 256 implies #[trigger] poly_frommont_spec(poly_tomont_spec(v))[k] == v[k] by {
        lemma_mont_roundtrip(v[k]);
    }
    assert(poly_frommont_spec(poly_tomont_spec(v)) =~= v);
}

/// Montgomery conversion there and back on a vector.
proof fn lemma_pv_mont_roundtrip(b: Seq<Seq<int>>)
    requires
        polyvec_wf(b),
    ensures
        pv_frommont(pv_tomont(b)) == b,
{
    assert forall|i: int| 0 <= i < 12 implies #[trigger] pv_frommont(pv_tomont(b))[i] == b[i] by {
        lemma_poly_mont_roundtrip(b[i]);
    }
    assert(pv_frommont(pv_tomont(b)) =~= b);
}

/// Unpacking the ciphertext packed from the Montgomery forms of `b` and `v`
/// gives back `b` and `v`.
pub proof fn lemma_ciphertext_roundtrip(b: Seq<Seq<int>>, v: Seq<int>)
    requires
        polyvec_wf(b),
        v.len() == 256,
        canonical(v),
    ensures
        pack_ciphertext_spec(pv_tomont(b), poly_tomont_spec(v)).len() == 26624,
        polyvec_frombytes_spec(pack_ciphertext_spec(pv_tomont(b), poly_tomont_spec(v)), 0) == b,
        poly_frombytes_spec(pack_ciphertext_spec(pv_tomont(b), poly_tomont_spec(v)), 24576) == v,
{
    lemma_pv_mont_roundtrip(b);
    lemma_poly_mont_roundtrip(v);
    let tail = poly_tobytes_spec(v);
    let head = polyvec_tobytes_spec(b);
    lemma_polyvec_bytes_roundtrip(b, tail);
    assert(pack_ciphertext_spec(pv_tomont(b), poly_tomont_spec(v)) == head + tail);
    lemma_poly_bytes_roundtrip(v);
    lemma_frombytes_suffix(head, tail);
}

/// De-serializing right after a 24576-byte prefix reads the suffix.
proof fn lemma_frombytes_suffix(head: Seq<u8>, tail: Seq<u8>)
    requires
        head.len() == 24576,
        tail.len() == 2048,
    ensures
        poly_frombytes_spec(head + tail, 24576) == poly_frombytes_spec(tail, 0),
{
    let s = head + tail;
    assert forall|p: int| 0 <= p < 2048 implies #[trigger] tail[p] == s[24576 + p] by {}
    lemma_frombytes_window(s, 24576, tail);
}

} // verus!
