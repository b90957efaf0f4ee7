use vstd::prelude::*;
use vstd::arithmetic::div_mod::*;
use crate::params::KYBER_EPP_UNIFORM_BOUND;
use crate::reference::reduce::{
    q, mont_r, mont_r_inv, lemma_constants, lemma_cong_add, lemma_cong_sub, lemma_cong_mul, lemma_cong_mod,
};
use crate::reference::ntt::{fqmul_spec, zeta_spec, ntt_layer, invntt_layer, ntt_layers, invntt_layers,
    ntt_spec, invntt_spec, fwd_len, inv_len, is_layer_len, canonical, INV_SCALE, lemma_partner,
    lemma_ntt_layers_len, lemma_invntt_layers_len};
use crate::reference::poly::{
    basemul_pair_spec, poly_basemul_spec, decode_bit, half_q_spec, msg_byte_bits, poly_tomsg_spec,
    poly_frommsg_spec, lemma_msg_roundtrip, uniform_bounded_spec, uniform_buf_len, negacyclic_sum,
    poly_mul_spec,
};
use crate::reference::symmetric::prf_spec;
use crate::reference::cbd::cbd2_coeff;
use crate::reference::convolution::{
    rsum, lemma_ntt_mul, lemma_rsum_cong, lemma_rsum_scale,
};
use crate::reference::indcpa::{
    keypair_seeds, keypair_s_hat, keypair_t_hat, noise_vec_spec, matrix_spec, enc_b_spec, enc_v_spec,
    indcpa_enc_spec, indcpa_dec_spec, indcpa_keypair_pk_spec, indcpa_keypair_sk_spec, polyvec_wf,
    pack_ciphertext_spec, lemma_pk_roundtrip, lemma_sk_roundtrip,
    lemma_ciphertext_roundtrip, lemma_mont_roundtrip, noise_spec,
};
use crate::reference::polyvec::{
    basemul_acc_sum, polyvec_basemul_acc_spec, pv_ntt, pv_tomont, pv_frommont, poly_tomont_spec,
    poly_frommont_spec, poly_reduce_spec,
};

verus! {

// ---------------------------------------------------------------------------
// Sums of polynomials modulo q.

/// The zero polynomial.
pub open spec fn mzero() -> Seq<int> {
    Seq::new(256, |k: int| 0)
}

/// Coefficient-wise sum modulo q.
pub open spec fn madd(x: Seq<int>, y: Seq<int>) -> Seq<int> {
    Seq::new(256, |k: int| (x[k] + y[k]) % q())
}

/// The sum modulo q of `f(0), ..., f(n - 1)`.
pub open spec fn psum(f: spec_fn(int) -> Seq<int>, n: nat) -> Seq<int>
    decreases n,
{
    if n == 0 {
        mzero()
    } else {
        madd(psum(f, (n - 1) as nat), f(n - 1))
    }
}

/// A polynomial of 256 canonical coefficients.
pub open spec fn poly_wf(x: Seq<int>) -> bool {
    x.len() == 256 && canonical(x)
}

/// Sums modulo q are well formed.
proof fn lemma_madd_wf(x: Seq<int>, y: Seq<int>)
    ensures
        poly_wf(madd(x, y)),
{
    lemma_constants();
    assert forall|k: int| 0 <= k < 256 implies 0 <= #[trigger] madd(x, y)[k] < q() by {
        lemma_mod_bound(x[k] + y[k], q());
    }
}

/// Sums of polynomials modulo q are well formed.
proof fn lemma_psum_wf(f: spec_fn(int) -> Seq<int>, n: nat)
    ensures
        poly_wf(psum(f, n)),
    decreases n,
{
    lemma_constants();
    if n > 0 {
        lemma_madd_wf(psum(f, (n - 1) as nat), f(n - 1));
    }
}

/// Adding the zero polynomial.
proof fn lemma_madd_zero(x: Seq<int>)
    requires
        poly_wf(x),
    ensures
        madd(mzero(), x) == x,
        madd(x, mzero()) == x,
{
    lemma_constants();
    assert forall|k: int| 0 <= k < 256 implies #[trigger] madd(mzero(), x)[k] == x[k] by {
        lemma_small_mod(x[k] as nat, q() as nat);
    }
    assert(madd(mzero(), x) =~= x);
    assert(madd(x, mzero()) =~= x);
}

/// Sums of two sums: the order of the four summands does not matter.
proof fn lemma_madd_swap4(a: Seq<int>, b: Seq<int>, c: Seq<int>, d: Seq<int>)
    ensures
        madd(madd(a, b), madd(c, d)) == madd(madd(a, c), madd(b, d)),
{
    assert forall|k: int| 0 <= k < 256 implies #[trigger] madd(madd(a, b), madd(c, d))[k] == madd(madd(a, c), madd(b, d))[k] by {
        lemma_constants();
        lemma_add_mod_noop(a[k] + b[k], c[k] + d[k], q());
        lemma_add_mod_noop(a[k] + c[k], b[k] + d[k], q());
    }
    assert(madd(madd(a, b), madd(c, d)) =~= madd(madd(a, c), madd(b, d)));
}

/// Sums agree where their summands agree.
proof fn lemma_psum_ext(f: spec_fn(int) -> Seq<int>, g: spec_fn(int) -> Seq<int>, n: nat)
    requires
        forall|j: int| 0 <= j < n ==> #[trigger] f(j) == g(j),
    ensures
        psum(f, n) == psum(g, n),
    decreases n,
{
    if n > 0 {
        lemma_psum_ext(f, g, (n - 1) as nat);
    }
}

/// The sum of two sums is the sum of the pairwise sums.
proof fn lemma_psum_add(f: spec_fn(int) -> Seq<int>, g: spec_fn(int) -> Seq<int>, n: nat)
    ensures
        madd(psum(f, n), psum(g, n)) == psum(|j: int| madd(f(j), g(j)), n),
    decreases n,
{
    if n == 0 {
        lemma_constants();
        assert(madd(mzero(), mzero()) =~= mzero());
    } else {
        let m = (n - 1) as nat;
        lemma_psum_add(f, g, m);
        lemma_madd_swap4(psum(f, m), f(m as int), psum(g, m), g(m as int));
    }
}

/// A sum of zero polynomials is zero.
proof fn lemma_psum_zero(f: spec_fn(int) -> Seq<int>, n: nat)
    requires
        forall|j: int| 0 <= j < n ==> #[trigger] f(j) == mzero(),
    ensures
        psum(f, n) == mzero(),
    decreases n,
{
    if n > 0 {
        lemma_psum_zero(f, (n - 1) as nat);
        lemma_madd_zero(mzero());
    }
}

/// A double sum may be taken in either order.
proof fn lemma_psum_swap(g: spec_fn(int, int) -> Seq<int>, n: nat, m: nat)
    ensures
        psum(|i: int| psum(|j: int| g(i, j), m), n) == psum(|j: int| psum(|i: int| g(i, j), n), m),
    decreases n,
{
    if n == 0 {
        lemma_psum_zero(|j: int| psum(|i: int| g(i, j), 0), m);
    } else {
        let n1 = (n - 1) as nat;
        lemma_psum_swap(g, n1, m);
        let f1 = |j: int| psum(|i: int| g(i, j), n1);
        let f2 = |j: int| g(n1 as int, j);
        lemma_psum_add(f1, f2, m);
        lemma_psum_ext(|j: int| madd(f1(j), f2(j)), |j: int| psum(|i: int| g(i, j), n), m);
    }
}

/// The inner product of two vectors is a sum of products.
proof fn lemma_acc_psum(a: Seq<Seq<int>>, b: Seq<Seq<int>>)
    ensures
        polyvec_basemul_acc_spec(a, b) == psum(|j: int| poly_basemul_spec(a[j], b[j]), 12),
{
    let f = |j: int| poly_basemul_spec(a[j], b[j]);
    assert forall|k: int| 0 <= k < 256 implies #[trigger] polyvec_basemul_acc_spec(a, b)[k] == psum(f, 12)[k] by {
        lemma_acc_psum_coeff(a, b, k, 12);
    }
    assert(polyvec_basemul_acc_spec(a, b) =~= psum(f, 12));
}

/// A coefficient of the inner product as a sum of products.
proof fn lemma_acc_psum_coeff(a: Seq<Seq<int>>, b: Seq<Seq<int>>, k: int, n: nat)
    requires
        0 <= k < 256,
    ensures
        basemul_acc_sum(a, b, k, n) % q() == psum(|j: int| poly_basemul_spec(a[j], b[j]), n)[k],
    decreases n,
{
    lemma_constants();
    if n == 0 {
        assert(0int % q() == 0);
    } else {
        let m = (n - 1) as nat;
        lemma_acc_psum_coeff(a, b, k, m);
        let s = basemul_acc_sum(a, b, k, m);
        let t = poly_basemul_spec(a[m as int], b[m as int])[k];
        lemma_cong_mod(s);
        lemma_cong_add(s % q(), t, s, t);
    }
}

// ---------------------------------------------------------------------------
// Products in the NTT domain.

/// Normal form of the first component of a pair product.
pub open spec fn pair_nf0(a0: int, a1: int, b0: int, b1: int, z: int) -> int {
    mont_r_inv() * mont_r_inv() * z * a1 * b1 + mont_r_inv() * a0 * b0
}

/// Normal form of the second component of a pair product.
pub open spec fn pair_nf1(a0: int, a1: int, b0: int, b1: int) -> int {
    mont_r_inv() * a0 * b1 + mont_r_inv() * a1 * b0
}

/// A pair product is its normal form modulo q.
pub(crate) proof fn lemma_pair_nf(a0: int, a1: int, b0: int, b1: int, z: int)
    ensures
        basemul_pair_spec(a0, a1, b0, b1, z).0 == pair_nf0(a0, a1, b0, b1, z) % q(),
        basemul_pair_spec(a0, a1, b0, b1, z).1 == pair_nf1(a0, a1, b0, b1) % q(),
{
    lemma_constants();
    let ri = mont_r_inv();
    let t = a1 * b1 * ri;
    lemma_cong_mod(t);
    lemma_cong_mul(z, t % q(), t);
    lemma_cong_mul(ri, (t % q()) * z, t * z);
    assert((t * z) * ri == ri * ri * z * a1 * b1) by (nonlinear_arith) requires t == a1 * b1 * ri;
    assert(a0 * b0 * ri == ri * a0 * b0) by (nonlinear_arith);
    let u = fqmul_spec(fqmul_spec(a1, b1), z);
    let v = fqmul_spec(a0, b0);
    lemma_cong_mod(ri * ri * z * a1 * b1);
    lemma_cong_mod(ri * a0 * b0);
    lemma_cong_add(u, v, ri * ri * z * a1 * b1, ri * a0 * b0);
    assert(a0 * b1 * ri == ri * a0 * b1) by (nonlinear_arith);
    assert(a1 * b0 * ri == ri * a1 * b0) by (nonlinear_arith);
    lemma_cong_mod(ri * a0 * b1);
    lemma_cong_mod(ri * a1 * b0);
    lemma_cong_add(fqmul_spec(a0, b1), fqmul_spec(a1, b0), ri * a0 * b1, ri * a1 * b0);
}

/// A pair product is additive in its first factor.
proof fn lemma_pair_add(x0: int, x1: int, y0: int, y1: int, b0: int, b1: int, z: int)
    ensures
        basemul_pair_spec((x0 + y0) % q(), (x1 + y1) % q(), b0, b1, z).0
            == (basemul_pair_spec(x0, x1, b0, b1, z).0 + basemul_pair_spec(y0, y1, b0, b1, z).0) % q(),
        basemul_pair_spec((x0 + y0) % q(), (x1 + y1) % q(), b0, b1, z).1
            == (basemul_pair_spec(x0, x1, b0, b1, z).1 + basemul_pair_spec(y0, y1, b0, b1, z).1) % q(),
{
    lemma_constants();
    let ri = mont_r_inv();
    let s0 = (x0 + y0) % q();
    let s1 = (x1 + y1) % q();
    lemma_pair_nf(s0, s1, b0, b1, z);
    lemma_pair_nf(x0, x1, b0, b1, z);
    lemma_pair_nf(y0, y1, b0, b1, z);
    lemma_cong_mod(x0 + y0);
    lemma_cong_mod(x1 + y1);
    // first component
    let k1 = ri * ri * z * b1;
    let k0 = ri * b0;
    assert(pair_nf0(s0, s1, b0, b1, z) == k1 * s1 + k0 * s0) by (nonlinear_arith)
        requires k1 == ri * ri * z * b1, k0 == ri * b0, ri == mont_r_inv();
    assert(pair_nf0(x0, x1, b0, b1, z) == k1 * x1 + k0 * x0) by (nonlinear_arith)
        requires k1 == ri * ri * z * b1, k0 == ri * b0, ri == mont_r_inv();
    assert(pair_nf0(y0, y1, b0, b1, z) == k1 * y1 + k0 * y0) by (nonlinear_arith)
        requires k1 == ri * ri * z * b1, k0 == ri * b0, ri == mont_r_inv();
    lemma_distr(k1, x1, y1);
    lemma_distr(k0, x0, y0);
    lemma_cong_mul(k1, s1, x1 + y1);
    lemma_cong_mul(k0, s0, x0 + y0);
    lemma_cong_add(k1 * s1, k0 * s0, k1 * (x1 + y1), k0 * (x0 + y0));
    lemma_cong_mod(pair_nf0(x0, x1, b0, b1, z));
    lemma_cong_mod(pair_nf0(y0, y1, b0, b1, z));
    lemma_cong_add(pair_nf0(x0, x1, b0, b1, z) % q(), pair_nf0(y0, y1, b0, b1, z) % q(),
        pair_nf0(x0, x1, b0, b1, z), pair_nf0(y0, y1, b0, b1, z));
    // second component
    let m1 = ri * b1;
    let m0 = ri * b0;
    assert(pair_nf1(s0, s1, b0, b1) == m1 * s0 + m0 * s1) by (nonlinear_arith)
        requires m1 == ri * b1, m0 == ri * b0, ri == mont_r_inv();
    assert(pair_nf1(x0, x1, b0, b1) == m1 * x0 + m0 * x1) by (nonlinear_arith)
        requires m1 == ri * b1, m0 == ri * b0, ri == mont_r_inv();
    assert(pair_nf1(y0, y1, b0, b1) == m1 * y0 + m0 * y1) by (nonlinear_arith)
        requires m1 == ri * b1, m0 == ri * b0, ri == mont_r_inv();
    lemma_distr(m1, x0, y0);
    lemma_distr(m0, x1, y1);
    lemma_cong_mul(m1, s0, x0 + y0);
    lemma_cong_mul(m0, s1, x1 + y1);
    lemma_cong_add(m1 * s0, m0 * s1, m1 * (x0 + y0), m0 * (x1 + y1));
    lemma_cong_mod(pair_nf1(x0, x1, b0, b1));
    lemma_cong_mod(pair_nf1(y0, y1, b0, b1));
    lemma_cong_add(pair_nf1(x0, x1, b0, b1) % q(), pair_nf1(y0, y1, b0, b1) % q(),
        pair_nf1(x0, x1, b0, b1), pair_nf1(y0, y1, b0, b1));
}

/// A pair product does not depend on the order of its factors.
proof fn lemma_pair_comm(a0: int, a1: int, b0: int, b1: int, z: int)
    ensures
        basemul_pair_spec(a0, a1, b0, b1, z) == basemul_pair_spec(b0, b1, a0, a1, z),
{
    assert(a1 * b1 * mont_r_inv() == b1 * a1 * mont_r_inv()) by (nonlinear_arith);
    assert(a0 * b0 * mont_r_inv() == b0 * a0 * mont_r_inv()) by (nonlinear_arith);
    assert(a0 * b1 * mont_r_inv() == b1 * a0 * mont_r_inv()) by (nonlinear_arith);
    assert(a1 * b0 * mont_r_inv() == b0 * a1 * mont_r_inv()) by (nonlinear_arith);
}

/// `x (y + w)` expands to `x y + x w`.
proof fn lemma_distr(x: int, y: int, w: int)
    ensures
        x * (y + w) == x * y + x * w,
{
    assert(x * (y + w) == x * y + x * w) by (nonlinear_arith);
}

/// The polynomial identities behind associativity.
proof fn lemma_assoc_poly(ri: int, z: int, s0: int, s1: int, a0: int, a1: int, b0: int, b1: int)
    ensures
        ri * ri * z * s1 * (ri * a0 * b1 + ri * a1 * b0) + ri * s0 * (ri * ri * z * a1 * b1 + ri * a0 * b0)
            == ri * ri * z * b1 * (ri * s0 * a1 + ri * s1 * a0) + ri * b0 * (ri * ri * z * s1 * a1 + ri * s0 * a0),
        ri * s0 * (ri * a0 * b1 + ri * a1 * b0) + ri * s1 * (ri * ri * z * a1 * b1 + ri * a0 * b0)
            == ri * b1 * (ri * ri * z * s1 * a1 + ri * s0 * a0) + ri * b0 * (ri * s0 * a1 + ri * s1 * a0),
{
    let r2 = ri * ri;
    let r3 = ri * ri * ri;
    let m1 = r3 * z * s1 * a0 * b1;
    let m2 = r3 * z * s1 * a1 * b0;
    let m3 = r3 * z * s0 * a1 * b1;
    let m4 = r2 * s0 * a0 * b0;
    lemma_distr(ri * ri * z * s1, ri * a0 * b1, ri * a1 * b0);
    lemma_distr(ri * s0, ri * ri * z * a1 * b1, ri * a0 * b0);
    lemma_distr(ri * ri * z * b1, ri * s0 * a1, ri * s1 * a0);
    lemma_distr(ri * b0, ri * ri * z * s1 * a1, ri * s0 * a0);
    assert(ri * ri * z * s1 * (ri * a0 * b1) == m1) by (nonlinear_arith) requires r3 == ri * ri * ri, m1 == r3 * z * s1 * a0 * b1;
    assert(ri * ri * z * s1 * (ri * a1 * b0) == m2) by (nonlinear_arith) requires r3 == ri * ri * ri, m2 == r3 * z * s1 * a1 * b0;
    assert(ri * s0 * (ri * ri * z * a1 * b1) == m3) by (nonlinear_arith) requires r3 == ri * ri * ri, m3 == r3 * z * s0 * a1 * b1;
    assert(ri * s0 * (ri * a0 * b0) == m4) by (nonlinear_arith) requires r2 == ri * ri, m4 == r2 * s0 * a0 * b0;
    assert(ri * ri * z * b1 * (ri * s0 * a1) == m3) by (nonlinear_arith) requires r3 == ri * ri * ri, m3 == r3 * z * s0 * a1 * b1;
    assert(ri * ri * z * b1 * (ri * s1 * a0) == m1) by (nonlinear_arith) requires r3 == ri * ri * ri, m1 == r3 * z * s1 * a0 * b1;
    assert(ri * b0 * (ri * ri * z * s1 * a1) == m2) by (nonlinear_arith) requires r3 == ri * ri * ri, m2 == r3 * z * s1 * a1 * b0;
    assert(ri * b0 * (ri * s0 * a0) == m4) by (nonlinear_arith) requires r2 == ri * ri, m4 == r2 * s0 * a0 * b0;
    // second components
    let n1 = r2 * s0 * a0 * b1;
    let n2 = r2 * s0 * a1 * b0;
    let n3 = r3 * z * s1 * a1 * b1;
    let n4 = r2 * s1 * a0 * b0;
    lemma_distr(ri * s0, ri * a0 * b1, ri * a1 * b0);
    lemma_distr(ri * s1, ri * ri * z * a1 * b1, ri * a0 * b0);
    lemma_distr(ri * b1, ri * ri * z * s1 * a1, ri * s0 * a0);
    lemma_distr(ri * b0, ri * s0 * a1, ri * s1 * a0);
    assert(ri * s0 * (ri * a0 * b1) == n1) by (nonlinear_arith) requires r2 == ri * ri, n1 == r2 * s0 * a0 * b1;
    assert(ri * s0 * (ri * a1 * b0) == n2) by (nonlinear_arith) requires r2 == ri * ri, n2 == r2 * s0 * a1 * b0;
    assert(ri * s1 * (ri * ri * z * a1 * b1) == n3) by (nonlinear_arith) requires r3 == ri * ri * ri, n3 == r3 * z * s1 * a1 * b1;
    assert(ri * s1 * (ri * a0 * b0) == n4) by (nonlinear_arith) requires r2 == ri * ri, n4 == r2 * s1 * a0 * b0;
    assert(ri * b1 * (ri * ri * z * s1 * a1) == n3) by (nonlinear_arith) requires r3 == ri * ri * ri, n3 == r3 * z * s1 * a1 * b1;
    assert(ri * b1 * (ri * s0 * a0) == n1) by (nonlinear_arith) requires r2 == ri * ri, n1 == r2 * s0 * a0 * b1;
    assert(ri * b0 * (ri * s0 * a1) == n2) by (nonlinear_arith) requires r2 == ri * ri, n2 == r2 * s0 * a1 * b0;
    assert(ri * b0 * (ri * s1 * a0) == n4) by (nonlinear_arith) requires r2 == ri * ri, n4 == r2 * s1 * a0 * b0;
}

/// Pair products are associative.
proof fn lemma_pair_assoc(s0: int, s1: int, a0: int, a1: int, b0: int, b1: int, z: int)
    ensures
        basemul_pair_spec(s0, s1, basemul_pair_spec(a0, a1, b0, b1, z).0, basemul_pair_spec(a0, a1, b0, b1, z).1, z)
            == basemul_pair_spec(basemul_pair_spec(s0, s1, a0, a1, z).0, basemul_pair_spec(s0, s1, a0, a1, z).1, b0, b1, z),
{
    lemma_constants();
    let ri = mont_r_inv();
    let c = basemul_pair_spec(a0, a1, b0, b1, z);
    let d = basemul_pair_spec(s0, s1, a0, a1, z);
    lemma_pair_nf(a0, a1, b0, b1, z);
    lemma_pair_nf(s0, s1, a0, a1, z);
    lemma_pair_nf(s0, s1, c.0, c.1, z);
    lemma_pair_nf(d.0, d.1, b0, b1, z);
    let na0 = pair_nf0(a0, a1, b0, b1, z);
    let na1 = pair_nf1(a0, a1, b0, b1);
    let nd0 = pair_nf0(s0, s1, a0, a1, z);
    let nd1 = pair_nf1(s0, s1, a0, a1);
    lemma_cong_mod(na0);
    lemma_cong_mod(na1);
    lemma_cong_mod(nd0);
    lemma_cong_mod(nd1);
    lemma_assoc_poly(ri, z, s0, s1, a0, a1, b0, b1);
    // first components
    let k1 = ri * ri * z * s1;
    let k0 = ri * s0;
    assert(pair_nf0(s0, s1, c.0, c.1, z) == k1 * c.1 + k0 * c.0) by (nonlinear_arith)
        requires k1 == ri * ri * z * s1, k0 == ri * s0, ri == mont_r_inv();
    lemma_cong_mul(k1, c.1, na1);
    lemma_cong_mul(k0, c.0, na0);
    lemma_cong_add(k1 * c.1, k0 * c.0, k1 * na1, k0 * na0);
    let h1 = ri * ri * z * b1;
    let h0 = ri * b0;
    assert(pair_nf0(d.0, d.1, b0, b1, z) == h1 * d.1 + h0 * d.0) by (nonlinear_arith)
        requires h1 == ri * ri * z * b1, h0 == ri * b0, ri == mont_r_inv();
    lemma_cong_mul(h1, d.1, nd1);
    lemma_cong_mul(h0, d.0, nd0);
    lemma_cong_add(h1 * d.1, h0 * d.0, h1 * nd1, h0 * nd0);
    assert(k1 * na1 + k0 * na0 == h1 * nd1 + h0 * nd0);
    // second components
    let g1 = ri * s0;
    let g0 = ri * s1;
    assert(pair_nf1(s0, s1, c.0, c.1) == g1 * c.1 + g0 * c.0) by (nonlinear_arith)
        requires g1 == ri * s0, g0 == ri * s1, ri == mont_r_inv();
    lemma_cong_mul(g1, c.1, na1);
    lemma_cong_mul(g0, c.0, na0);
    lemma_cong_add(g1 * c.1, g0 * c.0, g1 * na1, g0 * na0);
    let e1 = ri * b1;
    let e0 = ri * b0;
    assert(pair_nf1(d.0, d.1, b0, b1) == e1 * d.0 + e0 * d.1) by (nonlinear_arith)
        requires e1 == ri * b1, e0 == ri * b0, ri == mont_r_inv();
    lemma_cong_mul(e1, d.0, nd0);
    lemma_cong_mul(e0, d.1, nd1);
    lemma_cong_add(e1 * d.0, e0 * d.1, e1 * nd0, e0 * nd1);
    assert(g1 * na1 + g0 * na0 == e1 * nd0 + e0 * nd1);
}

/// Where coefficient `k` sits among the groups of four.
pub(crate) proof fn lemma_group(k: int)
    requires
        0 <= k < 256,
    ensures
        0 <= k / 4 < 64,
        k == 4 * (k / 4) + k % 4,
        0 <= k % 4 < 4,
        (4 * (k / 4)) / 4 == k / 4,
        (4 * (k / 4)) % 4 == 0,
        (4 * (k / 4) + 1) / 4 == k / 4,
        (4 * (k / 4) + 1) % 4 == 1,
        (4 * (k / 4) + 2) / 4 == k / 4,
        (4 * (k / 4) + 2) % 4 == 2,
        (4 * (k / 4) + 3) / 4 == k / 4,
        (4 * (k / 4) + 3) % 4 == 3,
{
}

/// The NTT-domain product is additive in its first factor.
pub proof fn lemma_bm_add(x: Seq<int>, y: Seq<int>, b: Seq<int>)
    ensures
        poly_basemul_spec(madd(x, y), b) == madd(poly_basemul_spec(x, b), poly_basemul_spec(y, b)),
{
    let u = madd(x, y);
    assert forall|k: int| 0 <= k < 256 implies #[trigger] poly_basemul_spec(u, b)[k]
        == madd(poly_basemul_spec(x, b), poly_basemul_spec(y, b))[k] by {
        lemma_group(k);
        let i = k / 4;
        let z = zeta_spec(64 + i);
        if k % 4 < 2 {
            lemma_pair_add(x[4 * i], x[4 * i + 1], y[4 * i], y[4 * i + 1], b[4 * i], b[4 * i + 1], z);
        } else {
            lemma_pair_add(x[4 * i + 2], x[4 * i + 3], y[4 * i + 2], y[4 * i + 3], b[4 * i + 2], b[4 * i + 3], (-z) % q());
        }
    }
    assert(poly_basemul_spec(u, b) =~= madd(poly_basemul_spec(x, b), poly_basemul_spec(y, b)));
}

/// The NTT-domain product is commutative.
pub proof fn lemma_bm_comm(a: Seq<int>, b: Seq<int>)
    ensures
        poly_basemul_spec(a, b) == poly_basemul_spec(b, a),
{
    assert forall|k: int| 0 <= k < 256 implies #[trigger] poly_basemul_spec(a, b)[k] == poly_basemul_spec(b, a)[k] by {
        lemma_group(k);
        let i = k / 4;
        let z = zeta_spec(64 + i);
        lemma_pair_comm(a[4 * i], a[4 * i + 1], b[4 * i], b[4 * i + 1], z);
        lemma_pair_comm(a[4 * i + 2], a[4 * i + 3], b[4 * i + 2], b[4 * i + 3], (-z) % q());
    }
    assert(poly_basemul_spec(a, b) =~= poly_basemul_spec(b, a));
}

/// The NTT-domain product is associative.
pub proof fn lemma_bm_assoc(s: Seq<int>, a: Seq<int>, b: Seq<int>)
    ensures
        poly_basemul_spec(s, poly_basemul_spec(a, b)) == poly_basemul_spec(poly_basemul_spec(s, a), b),
{
    let c = poly_basemul_spec(a, b);
    let d = poly_basemul_spec(s, a);
    assert forall|k: int| 0 <= k < 256 implies #[trigger] poly_basemul_spec(s, c)[k] == poly_basemul_spec(d, b)[k] by {
        lemma_group(k);
        let i = k / 4;
        let z = zeta_spec(64 + i);
        if k % 4 < 2 {
            assert(c[4 * i] == basemul_pair_spec(a[4 * i], a[4 * i + 1], b[4 * i], b[4 * i + 1], z).0);
            assert(c[4 * i + 1] == basemul_pair_spec(a[4 * i], a[4 * i + 1], b[4 * i], b[4 * i + 1], z).1);
            assert(d[4 * i] == basemul_pair_spec(s[4 * i], s[4 * i + 1], a[4 * i], a[4 * i + 1], z).0);
            assert(d[4 * i + 1] == basemul_pair_spec(s[4 * i], s[4 * i + 1], a[4 * i], a[4 * i + 1], z).1);
            lemma_pair_assoc(s[4 * i], s[4 * i + 1], a[4 * i], a[4 * i + 1], b[4 * i], b[4 * i + 1], z);
        } else {
            let zz = (-z) % q();
            assert(c[4 * i + 2] == basemul_pair_spec(a[4 * i + 2], a[4 * i + 3], b[4 * i + 2], b[4 * i + 3], zz).0);
            assert(c[4 * i + 3] == basemul_pair_spec(a[4 * i + 2], a[4 * i + 3], b[4 * i + 2], b[4 * i + 3], zz).1);
            assert(d[4 * i + 2] == basemul_pair_spec(s[4 * i + 2], s[4 * i + 3], a[4 * i + 2], a[4 * i + 3], zz).0);
            assert(d[4 * i + 3] == basemul_pair_spec(s[4 * i + 2], s[4 * i + 3], a[4 * i + 2], a[4 * i + 3], zz).1);
            lemma_pair_assoc(s[4 * i + 2], s[4 * i + 3], a[4 * i + 2], a[4 * i + 3], b[4 * i + 2], b[4 * i + 3], zz);
        }
    }
    assert(poly_basemul_spec(s, c) =~= poly_basemul_spec(d, b));
}

/// A pair product with zero is zero.
proof fn lemma_pair_zero(b0: int, b1: int, z: int)
    ensures
        basemul_pair_spec(0, 0, b0, b1, z) == (0int, 0int),
{
    lemma_constants();
    assert(0 * b1 * mont_r_inv() == 0) by (nonlinear_arith);
    assert(0 * b0 * mont_r_inv() == 0) by (nonlinear_arith);
    assert(0 * z * mont_r_inv() == 0) by (nonlinear_arith);
    assert(fqmul_spec(0, b1) == 0);
    assert(fqmul_spec(0, b0) == 0);
    assert(fqmul_spec(0, z) == 0);
}

/// The NTT-domain product with zero is zero.
proof fn lemma_bm_zero(b: Seq<int>)
    ensures
        poly_basemul_spec(mzero(), b) == mzero(),
{
    assert forall|k: int| 0 <= k < 256 implies #[trigger] poly_basemul_spec(mzero(), b)[k] == mzero()[k] by {
        lemma_group(k);
        let i = k / 4;
        let z = zeta_spec(64 + i);
        assert(mzero()[4 * i] == 0 && mzero()[4 * i + 1] == 0 && mzero()[4 * i + 2] == 0 && mzero()[4 * i + 3] == 0);
        lemma_pair_zero(b[4 * i], b[4 * i + 1], z);
        lemma_pair_zero(b[4 * i + 2], b[4 * i + 3], (-z) % q());
    }
    assert(poly_basemul_spec(mzero(), b) =~= mzero());
}

/// The product of a sum is the sum of the products (first factor).
proof fn lemma_bm_psum_left(f: spec_fn(int) -> Seq<int>, b: Seq<int>, n: nat)
    ensures
        poly_basemul_spec(psum(f, n), b) == psum(|j: int| poly_basemul_spec(f(j), b), n),
    decreases n,
{
    if n == 0 {
        lemma_bm_zero(b);
    } else {
        let m = (n - 1) as nat;
        lemma_bm_psum_left(f, b, m);
        lemma_bm_add(psum(f, m), f(m as int), b);
    }
}

/// The product with a sum is the sum of the products (second factor).
proof fn lemma_bm_psum_right(s: Seq<int>, f: spec_fn(int) -> Seq<int>, n: nat)
    ensures
        poly_basemul_spec(s, psum(f, n)) == psum(|j: int| poly_basemul_spec(s, f(j)), n),
{
    lemma_bm_comm(s, psum(f, n));
    lemma_bm_psum_left(f, s, n);
    assert forall|j: int| 0 <= j < n implies #[trigger] poly_basemul_spec(f(j), s) == poly_basemul_spec(s, f(j)) by {
        lemma_bm_comm(f(j), s);
    }
    lemma_psum_ext(|j: int| poly_basemul_spec(f(j), s), |j: int| poly_basemul_spec(s, f(j)), n);
}

// ---------------------------------------------------------------------------
// Linearity of the transforms.

/// A Montgomery product is additive in each factor.
proof fn lemma_fq_lin(z: int, u: int, a: int, b: int)
    requires
        u % q() == (a + b) % q(),
    ensures
        fqmul_spec(z, u) == (fqmul_spec(z, a) + fqmul_spec(z, b)) % q(),
        fqmul_spec(u, z) == (fqmul_spec(a, z) + fqmul_spec(b, z)) % q(),
{
    lemma_constants();
    let ri = mont_r_inv();
    lemma_cong_mul(z, u, a + b);
    lemma_cong_mul(ri, z * u, z * (a + b));
    assert((z * (a + b)) * ri == z * a * ri + z * b * ri) by (nonlinear_arith);
    lemma_add_mod_noop(z * a * ri, z * b * ri, q());
    lemma_cong_mul(ri, u * z, (a + b) * z);
    assert(((a + b) * z) * ri == a * z * ri + b * z * ri) by (nonlinear_arith);
    lemma_add_mod_noop(a * z * ri, b * z * ri, q());
}

/// A forward layer is additive.
proof fn lemma_ntt_layer_add(x: Seq<int>, y: Seq<int>, len: int)
    requires
        x.len() == 256,
        y.len() == 256,
        is_layer_len(len),
    ensures
        ntt_layer(madd(x, y), len) == madd(ntt_layer(x, len), ntt_layer(y, len)),
{
    lemma_constants();
    let u = madd(x, y);
    assert forall|j: int| 0 <= j < 256 implies #[trigger] ntt_layer(u, len)[j] == madd(ntt_layer(x, len), ntt_layer(y, len))[j] by {
        lemma_partner(j, len);
        let z = zeta_spec(128int / len + j / (2 * len));
        if j % (2 * len) < len {
            let p = j + len;
            lemma_cong_mod(x[p] + y[p]);
            lemma_fq_lin(z, u[p], x[p], y[p]);
            let f1 = fqmul_spec(z, x[p]);
            let f2 = fqmul_spec(z, y[p]);
            lemma_add_mod_noop(x[j] + y[j], f1 + f2, q());
            lemma_add_mod_noop(x[j] + f1, y[j] + f2, q());
        } else {
            let p = j - len;
            lemma_cong_mod(x[j] + y[j]);
            lemma_fq_lin(z, u[j], x[j], y[j]);
            let f1 = fqmul_spec(z, x[j]);
            let f2 = fqmul_spec(z, y[j]);
            lemma_sub_mod_noop(x[p] + y[p], f1 + f2, q());
            lemma_add_mod_noop(x[p] - f1, y[p] - f2, q());
        }
    }
    assert(ntt_layer(u, len) =~= madd(ntt_layer(x, len), ntt_layer(y, len)));
}

/// An inverse layer is additive.
proof fn lemma_invntt_layer_add(x: Seq<int>, y: Seq<int>, len: int)
    requires
        x.len() == 256,
        y.len() == 256,
        is_layer_len(len),
    ensures
        invntt_layer(madd(x, y), len) == madd(invntt_layer(x, len), invntt_layer(y, len)),
{
    lemma_constants();
    let u = madd(x, y);
    assert forall|j: int| 0 <= j < 256 implies #[trigger] invntt_layer(u, len)[j] == madd(invntt_layer(x, len), invntt_layer(y, len))[j] by {
        lemma_partner(j, len);
        let z = zeta_spec(256int / len - 1 - j / (2 * len));
        if j % (2 * len) < len {
            let p = j + len;
            lemma_add_mod_noop(x[j] + y[j], x[p] + y[p], q());
            lemma_add_mod_noop(x[j] + x[p], y[j] + y[p], q());
        } else {
            let p = j - len;
            let w = (u[j] - u[p]) % q();
            let dx = x[j] - x[p];
            let dy = y[j] - y[p];
            lemma_cong_mod(u[j] - u[p]);
            lemma_sub_mod_noop(x[j] + y[j], x[p] + y[p], q());
            lemma_add_mod_noop(dx, dy, q());
            lemma_fq_lin(z, w, dx % q(), dy % q());
        }
    }
    assert(invntt_layer(u, len) =~= madd(invntt_layer(x, len), invntt_layer(y, len)));
}

/// The first `m` forward layers are additive.
proof fn lemma_ntt_layers_add(x: Seq<int>, y: Seq<int>, m: nat)
    requires
        x.len() == 256,
        y.len() == 256,
        m <= 7,
    ensures
        ntt_layers(madd(x, y), m) == madd(ntt_layers(x, m), ntt_layers(y, m)),
    decreases m,
{
    if m == 0 {
        assert(madd(x, y).len() == 256);
    } else {
        let k = (m - 1) as nat;
        lemma_ntt_layers_add(x, y, k);
        lemma_ntt_layers_len(x, k);
        lemma_ntt_layers_len(y, k);
        lemma_ntt_layer_add(ntt_layers(x, k), ntt_layers(y, k), fwd_len(k as int));
    }
}

/// The first `m` inverse layers are additive.
proof fn lemma_invntt_layers_add(x: Seq<int>, y: Seq<int>, m: nat)
    requires
        x.len() == 256,
        y.len() == 256,
        m <= 7,
    ensures
        invntt_layers(madd(x, y), m) == madd(invntt_layers(x, m), invntt_layers(y, m)),
    decreases m,
{
    if m > 0 {
        let k = (m - 1) as nat;
        lemma_invntt_layers_add(x, y, k);
        lemma_invntt_layers_len(x, k);
        lemma_invntt_layers_len(y, k);
        lemma_invntt_layer_add(invntt_layers(x, k), invntt_layers(y, k), inv_len(k as int));
    }
}

/// The forward transform is additive modulo q.
pub proof fn lemma_ntt_add(x: Seq<int>, y: Seq<int>)
    requires
        x.len() == 256,
        y.len() == 256,
    ensures
        ntt_spec(madd(x, y)) == madd(ntt_spec(x), ntt_spec(y)),
{
    lemma_ntt_layers_add(x, y, 7);
}

/// The inverse transform is additive modulo q.
pub proof fn lemma_invntt_add(x: Seq<int>, y: Seq<int>)
    requires
        x.len() == 256,
        y.len() == 256,
    ensures
        invntt_spec(madd(x, y)) == madd(invntt_spec(x), invntt_spec(y)),
{
    lemma_constants();
    lemma_invntt_layers_add(x, y, 7);
    let a = invntt_layers(x, 7);
    let b = invntt_layers(y, 7);
    lemma_invntt_layers_len(x, 7);
    lemma_invntt_layers_len(y, 7);
    lemma_invntt_layers_len(madd(x, y), 7);
    assert forall|j: int| 0 <= j < 256 implies #[trigger] invntt_spec(madd(x, y))[j] == madd(invntt_spec(x), invntt_spec(y))[j] by {
        lemma_cong_mod(a[j] + b[j]);
        lemma_fq_lin(INV_SCALE as int, madd(a, b)[j], a[j], b[j]);
    }
    assert(invntt_spec(madd(x, y)) =~= madd(invntt_spec(x), invntt_spec(y)));
}

// ---------------------------------------------------------------------------
// Inner products of vectors.

/// Transforms of well-formed polynomials are well formed.
proof fn lemma_ntt_wf(x: Seq<int>)
    requires
        poly_wf(x),
    ensures
        poly_wf(ntt_spec(x)),
{
    crate::reference::ntt::lemma_ntt_layers_canonical(x, 7);
}

/// Conversion into the Montgomery domain gives a well-formed polynomial.
proof fn lemma_tomont_wf(x: Seq<int>)
    ensures
        poly_wf(poly_tomont_spec(x)),
{
    lemma_constants();
    assert forall|k: int| 0 <= k < 256 implies 0 <= #[trigger] poly_tomont_spec(x)[k] < q() by {
        lemma_mod_bound(x[k] * mont_r(), q());
    }
}

/// Inner products are well formed.
proof fn lemma_acc_wf(a: Seq<Seq<int>>, b: Seq<Seq<int>>)
    ensures
        poly_wf(polyvec_basemul_acc_spec(a, b)),
{
    lemma_acc_psum(a, b);
    lemma_psum_wf(|j: int| poly_basemul_spec(a[j], b[j]), 12);
}

/// Row `i` of the double sum that decryption computes:
/// `sum_j s_i (at_ij r_j)`.
pub open spec fn dec_row(s: Seq<Seq<int>>, at: Seq<Seq<Seq<int>>>, r: Seq<Seq<int>>, i: int) -> Seq<int> {
    psum(|j: int| poly_basemul_spec(s[i], poly_basemul_spec(at[i][j], r[j])), 12)
}

/// Row `j` of the double sum that encryption computes:
/// `sum_i (a_ji s_i) r_j`.
pub open spec fn enc_row(a: Seq<Seq<Seq<int>>>, s: Seq<Seq<int>>, r: Seq<Seq<int>>, j: int) -> Seq<int> {
    psum(|i: int| poly_basemul_spec(poly_basemul_spec(a[j][i], s[i]), r[j]), 12)
}

/// The product of `si` with an inner product is the sum of the triple
/// products.
proof fn lemma_row_product(si: Seq<int>, ati: Seq<Seq<int>>, r: Seq<Seq<int>>)
    ensures
        poly_basemul_spec(si, polyvec_basemul_acc_spec(ati, r))
            == psum(|j: int| poly_basemul_spec(si, poly_basemul_spec(ati[j], r[j])), 12),
{
    let f = |j: int| poly_basemul_spec(ati[j], r[j]);
    lemma_acc_psum(ati, r);
    lemma_bm_psum_right(si, f, 12);
    lemma_psum_ext(|j: int| poly_basemul_spec(si, f(j)), |j: int| poly_basemul_spec(si, poly_basemul_spec(ati[j], r[j])), 12);
}

/// The product of an inner product with `rj` is the sum of the triple
/// products.
proof fn lemma_col_product(aj: Seq<Seq<int>>, s: Seq<Seq<int>>, rj: Seq<int>)
    ensures
        poly_basemul_spec(polyvec_basemul_acc_spec(aj, s), rj)
            == psum(|i: int| poly_basemul_spec(poly_basemul_spec(aj[i], s[i]), rj), 12),
{
    let f = |i: int| poly_basemul_spec(aj[i], s[i]);
    lemma_acc_psum(aj, s);
    lemma_bm_psum_left(f, rj, 12);
    lemma_psum_ext(|i: int| poly_basemul_spec(f(i), rj), |i: int| poly_basemul_spec(poly_basemul_spec(aj[i], s[i]), rj), 12);
}

/// Multiplying by a sum.
proof fn lemma_bm_split_right(s: Seq<int>, x: Seq<int>, y: Seq<int>)
    ensures
        poly_basemul_spec(s, madd(x, y)) == madd(poly_basemul_spec(s, x), poly_basemul_spec(s, y)),
{
    lemma_bm_comm(s, madd(x, y));
    lemma_bm_add(x, y, s);
    lemma_bm_comm(x, s);
    lemma_bm_comm(y, s);
}

/// One term of the inner product that decryption computes.
proof fn lemma_dec_term(si: Seq<int>, ati: Seq<Seq<int>>, r: Seq<Seq<int>>, e1i: Seq<int>, bi: Seq<int>)
    requires
        e1i.len() == 256,
        bi == madd(invntt_spec(polyvec_basemul_acc_spec(ati, r)), e1i),
    ensures
        poly_basemul_spec(si, ntt_spec(bi)) == madd(
            psum(|j: int| poly_basemul_spec(si, poly_basemul_spec(ati[j], r[j])), 12),
            poly_basemul_spec(si, ntt_spec(e1i)),
        ),
{
    let p = polyvec_basemul_acc_spec(ati, r);
    lemma_acc_wf(ati, r);
    crate::reference::ntt::lemma_invntt_len(p);
    lemma_ntt_add(invntt_spec(p), e1i);
    crate::reference::ntt::lemma_ntt_invntt(p);
    lemma_bm_split_right(si, p, ntt_spec(e1i));
    lemma_row_product(si, ati, r);
}

/// The inner product that decryption computes, with `b` built from the
/// inverse transform of `at r` plus `e1`, splits into a double sum of
/// triple products and the inner product of `s` with the transform of `e1`.
proof fn lemma_dec_product(
    s: Seq<Seq<int>>,
    at: Seq<Seq<Seq<int>>>,
    r: Seq<Seq<int>>,
    e1: Seq<Seq<int>>,
    b: Seq<Seq<int>>,
)
    requires
        forall|i: int| 0 <= i < 12 ==> (#[trigger] e1[i]).len() == 256,
        forall|i: int| 0 <= i < 12 ==> #[trigger] b[i] == madd(invntt_spec(polyvec_basemul_acc_spec(at[i], r)), e1[i]),
    ensures
        polyvec_basemul_acc_spec(s, pv_ntt(b)) == madd(
            psum(|i: int| dec_row(s, at, r, i), 12),
            polyvec_basemul_acc_spec(s, pv_ntt(e1)),
        ),
{
    let g = |i: int| dec_row(s, at, r, i);
    let h = |i: int| poly_basemul_spec(s[i], pv_ntt(e1)[i]);
    let lhs = |i: int| poly_basemul_spec(s[i], pv_ntt(b)[i]);
    let mid = |i: int| madd(g(i), h(i));
    assert forall|i: int| 0 <= i < 12 implies #[trigger] lhs(i) == mid(i) by {
        lemma_dec_term(s[i], at[i], r, e1[i], b[i]);
    }
    lemma_acc_psum(s, pv_ntt(b));
    lemma_psum_ext(lhs, mid, 12);
    lemma_psum_add(g, h, 12);
    lemma_acc_psum(s, pv_ntt(e1));
}

/// The inner product that encryption computes with `t = a s + e` splits into
/// a double sum of triple products and the inner product of `e` with `r`.
proof fn lemma_enc_product(
    t: Seq<Seq<int>>,
    a: Seq<Seq<Seq<int>>>,
    s: Seq<Seq<int>>,
    e: Seq<Seq<int>>,
    r: Seq<Seq<int>>,
)
    requires
        forall|j: int| 0 <= j < 12 ==> #[trigger] t[j] == madd(polyvec_basemul_acc_spec(a[j], s), e[j]),
    ensures
        polyvec_basemul_acc_spec(t, r) == madd(
            psum(|j: int| enc_row(a, s, r, j), 12),
            polyvec_basemul_acc_spec(e, r),
        ),
{
    let g = |j: int| enc_row(a, s, r, j);
    let h = |j: int| poly_basemul_spec(e[j], r[j]);
    let lhs = |j: int| poly_basemul_spec(t[j], r[j]);
    let mid = |j: int| madd(g(j), h(j));
    assert forall|j: int| 0 <= j < 12 implies #[trigger] lhs(j) == mid(j) by {
        lemma_bm_add(polyvec_basemul_acc_spec(a[j], s), e[j], r[j]);
        lemma_col_product(a[j], s, r[j]);
    }
    lemma_acc_psum(t, r);
    lemma_psum_ext(lhs, mid, 12);
    lemma_psum_add(g, h, 12);
    lemma_acc_psum(e, r);
}

/// The two double sums agree when `at` is the transpose of `a`.
proof fn lemma_double_sums_agree(
    s: Seq<Seq<int>>,
    a: Seq<Seq<Seq<int>>>,
    at: Seq<Seq<Seq<int>>>,
    r: Seq<Seq<int>>,
)
    requires
        forall|i: int, j: int| 0 <= i < 12 && 0 <= j < 12 ==> #[trigger] at[i][j] == a[j][i],
    ensures
        psum(|i: int| dec_row(s, at, r, i), 12) == psum(|j: int| enc_row(a, s, r, j), 12),
{
    let g = |i: int, j: int| poly_basemul_spec(poly_basemul_spec(a[j][i], s[i]), r[j]);
    lemma_psum_swap(g, 12, 12);
    assert forall|i: int| 0 <= i < 12 implies #[trigger] dec_row(s, at, r, i) == psum(|j: int| g(i, j), 12) by {
        assert forall|j: int| 0 <= j < 12 implies #[trigger] poly_basemul_spec(s[i], poly_basemul_spec(at[i][j], r[j])) == g(i, j) by {
            assert(at[i][j] == a[j][i]);
            lemma_bm_assoc(s[i], a[j][i], r[j]);
            lemma_bm_comm(s[i], a[j][i]);
        }
        lemma_psum_ext(|j: int| poly_basemul_spec(s[i], poly_basemul_spec(at[i][j], r[j])), |j: int| g(i, j), 12);
    }
    lemma_psum_ext(|i: int| dec_row(s, at, r, i), |i: int| psum(|j: int| g(i, j), 12), 12);
    assert forall|j: int| 0 <= j < 12 implies #[trigger] enc_row(a, s, r, j) == psum(|i: int| g(i, j), 12) by {
        lemma_psum_ext(|i: int| g(i, j), |i: int| poly_basemul_spec(poly_basemul_spec(a[j][i], s[i]), r[j]), 12);
    }
    lemma_psum_ext(|j: int| psum(|i: int| g(i, j), 12), |j: int| enc_row(a, s, r, j), 12);
}

// ---------------------------------------------------------------------------
// Coefficients and decoding.

/// Leaving the Montgomery domain undoes entering it.
proof fn lemma_mont_cancel(x: int)
    ensures
        (((x * mont_r()) % q()) * mont_r_inv()) % q() == x % q(),
{
    lemma_constants();
    let r = mont_r();
    let ri = mont_r_inv();
    lemma_mul_mod_noop_left(x * r, ri, q());
    assert((x * r) * ri == x * (r * ri)) by (nonlinear_arith);
    lemma_mul_mod_noop_right(x, r * ri, q());
}

/// One coefficient of the decryption difference `mp - v`, where `mp` comes
/// from `A + B` and `v` from `A + C`, the Montgomery form of `e`, and the
/// Montgomery form of `m`.
proof fn lemma_coeff(a: int, b: int, c: int, e: int, m: int)
    ensures
        ((((a + b) % q()) * mont_r_inv()) % q()
            - (((((a + c) % q() + (e * mont_r()) % q()) + (m * mont_r()) % q()) % q()) * mont_r_inv()) % q()) % q()
            == (((b * mont_r_inv()) % q() - (c * mont_r_inv()) % q() - e) - m) % q(),
{
    lemma_constants();
    let ri = mont_r_inv();
    let qq = q();
    let p = (((a + b) % qq) * ri) % qq;
    lemma_cong_mod(a + b);
    lemma_cong_mul(ri, (a + b) % qq, a + b);
    lemma_cong_mod(((a + b) % qq) * ri);
    assert(p % qq == ((a + b) * ri) % qq);
    let ee = (e * mont_r()) % qq;
    let mm = (m * mont_r()) % qq;
    let x = (a + c) % qq;
    let sum = (x + ee) + mm;
    let ev = sum % qq;
    let v = (ev * ri) % qq;
    lemma_cong_mod(sum);
    lemma_cong_mul(ri, ev, sum);
    lemma_cong_mod(ev * ri);
    assert(v % qq == (sum * ri) % qq);
    assert(sum * ri == x * ri + ee * ri + mm * ri) by (nonlinear_arith) requires sum == (x + ee) + mm;
    lemma_cong_mod(a + c);
    lemma_cong_mul(ri, x, a + c);
    lemma_mont_cancel(e);
    lemma_mont_cancel(m);
    lemma_cong_add(x * ri, ee * ri, (a + c) * ri, e);
    lemma_cong_add(x * ri + ee * ri, mm * ri, (a + c) * ri + e, m);
    assert(v % qq == ((a + c) * ri + e + m) % qq);
    lemma_cong_sub(p, v, (a + b) * ri, (a + c) * ri + e + m);
    assert((a + b) * ri - ((a + c) * ri + e + m) == b * ri - c * ri - e - m) by (nonlinear_arith);
    lemma_cong_mod(b * ri);
    lemma_cong_mod(c * ri);
    lemma_cong_sub((b * ri) % qq, (c * ri) % qq, b * ri, c * ri);
    lemma_cong_sub((b * ri) % qq - (c * ri) % qq, e, b * ri - c * ri, e);
    lemma_cong_sub((b * ri) % qq - (c * ri) % qq - e, m, b * ri - c * ri - e, m);
}

/// `w` is within a quarter of q of a multiple of q: its residue is at most
/// `q / 4` or above `q - q / 4`.
pub open spec fn noise_within(w: int) -> bool {
    w % q() <= q() / 4 || w % q() > q() - q() / 4
}

/// Decoding rounds away a small error: an encoded bit minus it decodes to the
/// bit.
proof fn lemma_decode_noisy(w: int, mm: int)
    requires
        noise_within(w),
        mm == 0 || mm == half_q_spec(),
    ensures
        decode_bit((w - mm) % q()) == decode_bit(mm),
{
    lemma_constants();
    let qq = q();
    let wq = w % qq;
    lemma_mod_bound(w, qq);
    lemma_small_mod(mm as nat, qq as nat);
    lemma_sub_mod_noop(w, mm, qq);
    assert((w - mm) % qq == (wq - mm) % qq);
    assert(decode_bit(0) == 0);
    assert(decode_bit(half_q_spec()) == 1);
    let c = (wq - mm) % qq;
    lemma_mod_bound(wq - mm, qq);
    lemma_mod_twice(wq - mm, qq);
    if mm == 0 {
        lemma_small_mod(wq as nat, qq as nat);
        assert(c == wq);
    } else if wq <= qq / 4 {
        lemma_mod_add_multiples_vanish(wq - mm, qq);
        lemma_small_mod((qq + wq - mm) as nat, qq as nat);
        assert(c == qq + wq - mm);
    } else {
        lemma_small_mod((wq - mm) as nat, qq as nat);
        assert(c == wq - mm);
    }
}

/// Decoding depends only on the decoded bits.
proof fn lemma_msg_bits_ext(x: Seq<int>, y: Seq<int>, i: int, n: nat)
    requires
        0 <= i < 32,
        n <= 8,
        forall|k: int| 0 <= k < 256 ==> #[trigger] decode_bit(x[k]) == decode_bit(y[k]),
    ensures
        msg_byte_bits(x, i, n) == msg_byte_bits(y, i, n),
    decreases n,
{
    if n > 0 {
        lemma_msg_bits_ext(x, y, i, (n - 1) as nat);
        assert(decode_bit(x[8 * i + n - 1]) == decode_bit(y[8 * i + n - 1]));
    }
}

/// Polynomials whose coefficients decode alike decode to the same message.
proof fn lemma_tomsg_ext(x: Seq<int>, y: Seq<int>)
    requires
        forall|k: int| 0 <= k < 256 ==> #[trigger] decode_bit(x[k]) == decode_bit(y[k]),
    ensures
        poly_tomsg_spec(x) == poly_tomsg_spec(y),
{
    assert forall|i: int| 0 <= i < 32 implies #[trigger] poly_tomsg_spec(x)[i] == poly_tomsg_spec(y)[i] by {
        lemma_msg_bits_ext(x, y, i, 8);
    }
    assert(poly_tomsg_spec(x) =~= poly_tomsg_spec(y));
}

// ---------------------------------------------------------------------------
// Decryption undoes encryption.

/// The error that decryption has to round away, coefficient by coefficient:
/// `s^T e1 - e^T r - e2`, where `s`, `e` are the key pair's secret and error
/// vectors and `r`, `e1`, `e2` the encryption's noise (the products taken in
/// the NTT domain and brought back to the normal domain).
pub open spec fn decryption_noise(kc: Seq<u8>, coins: Seq<u8>, bound: int) -> Seq<int> {
    let seeds = keypair_seeds(kc);
    let s = keypair_s_hat(kc);
    let e = pv_ntt(noise_vec_spec(seeds.subrange(32, 64), 12));
    let r = pv_ntt(noise_vec_spec(coins, 0));
    let e1 = pv_ntt(noise_vec_spec(coins, 12));
    let e2 = uniform_bounded_spec(prf_spec(coins, 24, uniform_buf_len()), bound);
    let y = poly_frommont_spec(invntt_spec(polyvec_basemul_acc_spec(s, e1)));
    let z = poly_frommont_spec(invntt_spec(polyvec_basemul_acc_spec(e, r)));
    Seq::new(256, |k: int| y[k] - z[k] - e2[k])
}

/// Noise vectors and their transforms are well formed.
proof fn lemma_pv_ntt_noise_wf(seed: Seq<u8>, n0: int)
    ensures
        polyvec_wf(pv_ntt(noise_vec_spec(seed, n0))),
        forall|i: int| 0 <= i < 12 ==> (#[trigger] noise_vec_spec(seed, n0)[i]).len() == 256,
{
    assert forall|i: int| 0 <= i < 12 implies (#[trigger] pv_ntt(noise_vec_spec(seed, n0))[i]).len() == 256
        && canonical(pv_ntt(noise_vec_spec(seed, n0))[i]) by {
        lemma_tomont_wf(crate::reference::indcpa::noise_spec(seed, n0 + i));
        lemma_ntt_wf(noise_vec_spec(seed, n0)[i]);
    }
}

/// Decrypting an encryption gives the message back.
///
/// For the key pair derived from `kc` and a message `m` encrypted with
/// `coins` and error bound `bound`, decryption with the secret key returns
/// the 32 bytes of `m` whenever every coefficient of the decryption error
/// lies within a quarter of q (modulo q). The key pair's 64 derived bytes
/// are taken as the 64 bytes that SHA3-512 gives.
pub proof fn lemma_decrypt_encrypt(kc: Seq<u8>, coins: Seq<u8>, m: Seq<u8>, bound: int)
    requires
        keypair_seeds(kc).len() == 64,
        m.len() >= 32,
        forall|k: int| 0 <= k < 256 ==> noise_within(#[trigger] decryption_noise(kc, coins, bound)[k]),
    ensures
        indcpa_dec_spec(
            indcpa_enc_spec(m, indcpa_keypair_pk_spec(kc), coins, bound),
            indcpa_keypair_sk_spec(kc),
        ) == m.subrange(0, 32),
{
    lemma_constants();
    let seeds = keypair_seeds(kc);
    let seed_a = seeds.subrange(0, 32);
    let s = keypair_s_hat(kc);
    let e = pv_ntt(noise_vec_spec(seeds.subrange(32, 64), 12));
    let a = matrix_spec(seed_a, false);
    let t = keypair_t_hat(kc);
    let pk = indcpa_keypair_pk_spec(kc);
    let sk = indcpa_keypair_sk_spec(kc);
    // key pair
    lemma_pv_ntt_noise_wf(seeds.subrange(32, 64), 0);
    lemma_pv_ntt_noise_wf(seeds.subrange(32, 64), 12);
    assert forall|j: int| 0 <= j < 12 implies #[trigger] t[j] == madd(polyvec_basemul_acc_spec(a[j], s), e[j]) by {
        assert(t[j] =~= madd(polyvec_basemul_acc_spec(a[j], s), e[j]));
    }
    assert forall|j: int| 0 <= j < 12 implies (#[trigger] t[j]).len() == 256 && canonical(t[j]) by {
        lemma_madd_wf(polyvec_basemul_acc_spec(a[j], s), e[j]);
    }
    assert(polyvec_wf(t));
    lemma_pk_roundtrip(t, seed_a);
    lemma_sk_roundtrip(s);
    assert(pk.subrange(24576, 24608) =~= seed_a);
    let at = matrix_spec(pk.subrange(24576, 24608), true);
    assert forall|i: int, j: int| 0 <= i < 12 && 0 <= j < 12 implies #[trigger] at[i][j] == a[j][i] by {}
    // encryption
    let r = pv_ntt(noise_vec_spec(coins, 0));
    let ep = noise_vec_spec(coins, 12);
    lemma_pv_ntt_noise_wf(coins, 0);
    lemma_pv_ntt_noise_wf(coins, 12);
    let eb = enc_b_spec(pk, coins);
    let ev = enc_v_spec(m, pk, coins, bound);
    assert forall|i: int| 0 <= i < 12 implies #[trigger] eb[i] == madd(invntt_spec(polyvec_basemul_acc_spec(at[i], r)), ep[i]) by {
        assert(eb[i] =~= madd(invntt_spec(polyvec_basemul_acc_spec(at[i], r)), ep[i]));
    }
    assert forall|i: int| 0 <= i < 12 implies (#[trigger] eb[i]).len() == 256 && canonical(eb[i]) by {
        lemma_madd_wf(invntt_spec(polyvec_basemul_acc_spec(at[i], r)), ep[i]);
    }
    assert(polyvec_wf(eb));
    assert(canonical(ev)) by {
        assert forall|k: int| 0 <= k < 256 implies 0 <= #[trigger] ev[k] < q() by {
            lemma_mod_bound(
                crate::reference::indcpa::poly_add_spec(crate::reference::indcpa::poly_add_spec(
                    invntt_spec(polyvec_basemul_acc_spec(crate::reference::indcpa::unpack_pk_vec_spec(pk), r)),
                    poly_tomont_spec(uniform_bounded_spec(prf_spec(coins, 24, uniform_buf_len()), bound))),
                    poly_tomont_spec(poly_frommsg_spec(m)))[k], q());
        }
    }
    // ciphertext
    let bb = pv_frommont(eb);
    let vv = poly_frommont_spec(ev);
    assert forall|i: int| 0 <= i < 12 implies #[trigger] pv_tomont(bb)[i] == eb[i] && (#[trigger] bb[i]).len() == 256
        && canonical(bb[i]) by {
        assert forall|k: int| 0 <= k < 256 implies #[trigger] pv_tomont(bb)[i][k] == eb[i][k] && 0 <= bb[i][k] < q() by {
            lemma_mont_roundtrip(eb[i][k]);
            lemma_mod_bound(eb[i][k] * mont_r_inv(), q());
        }
        assert(pv_tomont(bb)[i] =~= eb[i]);
    }
    assert(pv_tomont(bb) =~= eb);
    assert forall|k: int| 0 <= k < 256 implies #[trigger] poly_tomont_spec(vv)[k] == ev[k] && 0 <= vv[k] < q() by {
        lemma_mont_roundtrip(ev[k]);
        lemma_mod_bound(ev[k] * mont_r_inv(), q());
    }
    assert(poly_tomont_spec(vv) =~= ev);
    lemma_ciphertext_roundtrip(bb, vv);
    let ct = indcpa_enc_spec(m, pk, coins, bound);
    assert(ct == pack_ciphertext_spec(pv_tomont(bb), poly_tomont_spec(vv)));
    // products
    lemma_dec_product(s, at, r, ep, eb);
    lemma_enc_product(t, a, s, e, r);
    lemma_double_sums_agree(s, a, at, r);
    let xs = psum(|i: int| dec_row(s, at, r, i), 12);
    let y = polyvec_basemul_acc_spec(s, pv_ntt(ep));
    let z = polyvec_basemul_acc_spec(e, r);
    lemma_psum_wf(|i: int| dec_row(s, at, r, i), 12);
    lemma_acc_wf(s, pv_ntt(ep));
    lemma_acc_wf(e, r);
    lemma_invntt_add(xs, y);
    lemma_invntt_add(xs, z);
    // decryption
    let e2 = uniform_bounded_spec(prf_spec(coins, 24, uniform_buf_len()), bound);
    let mm = poly_frommsg_spec(m);
    let w = decryption_noise(kc, coins, bound);
    let ix = invntt_spec(xs);
    let iy = invntt_spec(y);
    let iz = invntt_spec(z);
    let mp = poly_frommont_spec(invntt_spec(polyvec_basemul_acc_spec(s, pv_ntt(eb))));
    let diff = poly_reduce_spec(crate::reference::indcpa::poly_sub_spec(mp, vv));
    assert forall|k: int| 0 <= k < 256 implies #[trigger] decode_bit(diff[k]) == decode_bit(mm[k]) by {
        lemma_coeff(ix[k], iy[k], iz[k], e2[k], mm[k]);
        assert(diff[k] == (w[k] - mm[k]) % q());
        lemma_decode_noisy(w[k], mm[k]);
    }
    lemma_tomsg_ext(diff, mm);
    lemma_msg_roundtrip(m);
}

// ---------------------------------------------------------------------------
// The decryption error in the normal domain.

/// Coefficient `k` of `x^T y` for two vectors of 12 polynomials, multiplied
/// modulo `X^256 + 1` over the integers (no reduction modulo q).
pub open spec fn inner_nc(x: Seq<Seq<int>>, y: Seq<Seq<int>>, k: int) -> int {
    rsum(|i: int| negacyclic_sum(x[i], y[i], k, 256), 0, 12)
}

/// The 12 noise polynomials with nonces `n0 .. n0 + 12`.
pub open spec fn noise_polys(seed: Seq<u8>, n0: int) -> Seq<Seq<int>> {
    Seq::new(12, |i: int| noise_spec(seed, n0 + i))
}

/// `s^T e1 - e^T r` over the integers: the part of the decryption error that
/// the key pair's secret and error vectors (`s`, `e`) and the encryption's
/// noise vectors (`r`, `e1`) contribute.
pub open spec fn message_noise(kc: Seq<u8>, coins: Seq<u8>) -> Seq<int> {
    let sseed = keypair_seeds(kc).subrange(32, 64);
    Seq::new(256, |k: int|
        inner_nc(noise_polys(sseed, 0), noise_polys(coins, 12), k)
            - inner_nc(noise_polys(sseed, 12), noise_polys(coins, 0), k))
}

/// The transform of zero is zero.
proof fn lemma_ntt_zero()
    ensures
        ntt_spec(mzero()) == mzero(),
{
    lemma_constants();
    let z = crate::reference::ntt::scale_mod(mzero(), 0);
    assert(z =~= mzero());
    crate::reference::ntt::lemma_ntt_layers_scale(mzero(), 7, 0);
    crate::reference::ntt::lemma_ntt_layers_len(mzero(), 7);
    assert(crate::reference::ntt::scale_mod(ntt_spec(mzero()), 0) =~= mzero());
}

/// The transform of a sum is the sum of the transforms.
proof fn lemma_ntt_psum(f: spec_fn(int) -> Seq<int>, n: nat)
    requires
        forall|j: int| 0 <= j < n ==> (#[trigger] f(j)).len() == 256,
    ensures
        ntt_spec(psum(f, n)) == psum(|j: int| ntt_spec(f(j)), n),
    decreases n,
{
    if n == 0 {
        lemma_ntt_zero();
    } else {
        let m = (n - 1) as nat;
        lemma_ntt_psum(f, m);
        lemma_ntt_add(psum(f, m), f(m as int));
    }
}

/// A coefficient of a sum modulo q.
proof fn lemma_psum_coeff(f: spec_fn(int) -> Seq<int>, n: nat, k: int)
    requires
        0 <= k < 256,
    ensures
        psum(f, n)[k] % q() == rsum(|j: int| f(j)[k], 0, n as int) % q(),
    decreases n,
{
    lemma_constants();
    if n == 0 {
        assert(0int % q() == 0);
    } else {
        let m = (n - 1) as nat;
        lemma_psum_coeff(f, m, k);
        let a = psum(f, m)[k];
        let b = rsum(|j: int| f(j)[k], 0, m as int);
        lemma_cong_mod(a + f(m as int)[k]);
        lemma_cong_add(a, f(m as int)[k], b, f(m as int)[k]);
        assert(rsum(|j: int| f(j)[k], 0, n as int) == b + f(m as int)[k]);
    }
}

/// The inner product of the transforms of the Montgomery forms of `x` and
/// `y`, brought back, is `x^T y` modulo q.
proof fn lemma_inner_product_normal(x: Seq<Seq<int>>, y: Seq<Seq<int>>, k: int)
    requires
        0 <= k < 256,
    ensures
        poly_frommont_spec(invntt_spec(polyvec_basemul_acc_spec(
            pv_ntt(pv_tomont(x)), pv_ntt(pv_tomont(y)))))[k] % q() == inner_nc(x, y, k) % q(),
{
    lemma_constants();
    let xs = pv_ntt(pv_tomont(x));
    let ys = pv_ntt(pv_tomont(y));
    let g = |i: int| poly_tomont_spec(poly_mul_spec(x[i], y[i]));
    lemma_acc_psum(xs, ys);
    assert forall|i: int| 0 <= i < 12 implies #[trigger] poly_basemul_spec(xs[i], ys[i]) == ntt_spec(g(i)) by {
        lemma_ntt_mul(x[i], y[i]);
    }
    lemma_psum_ext(|i: int| poly_basemul_spec(xs[i], ys[i]), |i: int| ntt_spec(g(i)), 12);
    lemma_ntt_psum(g, 12);
    let sum = psum(g, 12);
    lemma_psum_wf(g, 12);
    crate::reference::ntt::lemma_invntt_ntt(sum);
    // the coefficient
    let ri = mont_r_inv();
    let rr = mont_r();
    lemma_psum_coeff(g, 12, k);
    let t1 = |i: int| g(i)[k];
    let t2 = |i: int| rr * negacyclic_sum(x[i], y[i], k, 256);
    assert forall|i: int| 0 <= i < 12 implies #[trigger] t1(i) % q() == t2(i) % q() by {
        let ns = negacyclic_sum(x[i], y[i], k, 256);
        lemma_cong_mod(ns);
        lemma_cong_mul(rr, ns % q(), ns);
        assert((ns % q()) * rr == rr * (ns % q())) by (nonlinear_arith);
        lemma_cong_mod((ns % q()) * rr);
    }
    lemma_rsum_cong(t1, t2, 0, 12);
    lemma_rsum_scale(|i: int| negacyclic_sum(x[i], y[i], k, 256), t2, rr, 0, 12);
    let s = inner_nc(x, y, k);
    // sum[k] = rr s (mod q); frommont multiplies by ri
    lemma_cong_mul(ri, sum[k], rr * s);
    assert(ri * (rr * s) == (rr * ri) * s) by (nonlinear_arith);
    lemma_cong_mul(s, rr * ri, 1);
    assert((rr * ri) * s == s * (rr * ri)) by (nonlinear_arith);
    assert(sum[k] * ri == ri * sum[k]) by (nonlinear_arith);
    lemma_cong_mod(sum[k] * ri);
}

/// The noise vectors in the Montgomery domain are the Montgomery forms of
/// the noise polynomials.
proof fn lemma_noise_vec_tomont(seed: Seq<u8>, n0: int)
    ensures
        noise_vec_spec(seed, n0) == pv_tomont(noise_polys(seed, n0)),
{
    assert(noise_vec_spec(seed, n0) =~= pv_tomont(noise_polys(seed, n0)));
}

/// The decryption error is `s^T e1 - e^T r - e2` modulo q.
pub proof fn lemma_decryption_noise_normal(kc: Seq<u8>, coins: Seq<u8>, bound: int, k: int)
    requires
        0 <= k < 256,
    ensures
        decryption_noise(kc, coins, bound)[k] % q() == (message_noise(kc, coins)[k]
            - uniform_bounded_spec(prf_spec(coins, 24, uniform_buf_len()), bound)[k]) % q(),
{
    let sseed = keypair_seeds(kc).subrange(32, 64);
    lemma_noise_vec_tomont(sseed, 0);
    lemma_noise_vec_tomont(sseed, 12);
    lemma_noise_vec_tomont(coins, 0);
    lemma_noise_vec_tomont(coins, 12);
    let s = noise_polys(sseed, 0);
    let e = noise_polys(sseed, 12);
    let r = noise_polys(coins, 0);
    let e1 = noise_polys(coins, 12);
    lemma_inner_product_normal(s, e1, k);
    lemma_inner_product_normal(e, r, k);
    let y = poly_frommont_spec(invntt_spec(polyvec_basemul_acc_spec(pv_ntt(pv_tomont(s)), pv_ntt(pv_tomont(e1)))))[k];
    let z = poly_frommont_spec(invntt_spec(polyvec_basemul_acc_spec(pv_ntt(pv_tomont(e)), pv_ntt(pv_tomont(r)))))[k];
    let e2 = uniform_bounded_spec(prf_spec(coins, 24, uniform_buf_len()), bound)[k];
    lemma_cong_sub(y, z, inner_nc(s, e1, k), inner_nc(e, r, k));
    lemma_cong_sub(y - z, e2, inner_nc(s, e1, k) - inner_nc(e, r, k), e2);
}

// ---------------------------------------------------------------------------
// Sizes of the noise.

/// Centered binomial coefficients lie in [-2, 2].
proof fn lemma_cbd2_bound(buf: Seq<u8>, k: int)
    ensures
        -2 <= cbd2_coeff(buf, k) <= 2,
{
    let byte = buf[k / 2];
    let nib = if k % 2 == 0 { byte & 0x0fu8 } else { byte >> 4u8 };
    assert((nib & 1u8) <= 1u8 && ((nib >> 1u8) & 1u8) <= 1u8 && ((nib >> 2u8) & 1u8) <= 1u8
        && ((nib >> 3u8) & 1u8) <= 1u8) by (bit_vector);
}

/// Noise coefficients lie in [-2, 2].
proof fn lemma_noise_bound(seed: Seq<u8>, n: int, k: int)
    requires
        0 <= k < 256,
    ensures
        -2 <= noise_spec(seed, n)[k] <= 2,
{
    lemma_cbd2_bound(prf_spec(seed, n as u8, 128), k);
}

/// A product of two values in [-2, 2] lies in [-4, 4].
proof fn lemma_product_bound(x: int, y: int)
    requires
        -2 <= x <= 2,
        -2 <= y <= 2,
    ensures
        -4 <= x * y <= 4,
{
    assert(-4 <= x * y <= 4) by (nonlinear_arith) requires -2 <= x <= 2, -2 <= y <= 2;
}

/// A negacyclic product coefficient of polynomials with coefficients in
/// [-2, 2] is at most `4 n` in absolute value after `n` terms.
proof fn lemma_nc_bound(a: Seq<int>, b: Seq<int>, k: int, n: nat)
    requires
        0 <= k < 256,
        n <= 256,
        forall|i: int| 0 <= i < 256 ==> -2 <= #[trigger] a[i] <= 2,
        forall|i: int| 0 <= i < 256 ==> -2 <= #[trigger] b[i] <= 2,
    ensures
        -4 * n <= negacyclic_sum(a, b, k, n) <= 4 * n,
    decreases n,
{
    if n > 0 {
        let i = n - 1;
        lemma_nc_bound(a, b, k, (n - 1) as nat);
        if i <= k {
            lemma_product_bound(a[i], b[k - i]);
        } else {
            lemma_product_bound(a[i], b[k - i + 256]);
        }
    }
}

/// Bound of `x^T y` for noise vectors.
proof fn lemma_inner_nc_bound(x: Seq<Seq<int>>, y: Seq<Seq<int>>, k: int, n: int)
    requires
        0 <= k < 256,
        0 <= n <= 12,
        forall|i: int, j: int| 0 <= i < 12 && 0 <= j < 256 ==> -2 <= #[trigger] x[i][j] <= 2,
        forall|i: int, j: int| 0 <= i < 12 && 0 <= j < 256 ==> -2 <= #[trigger] y[i][j] <= 2,
    ensures
        -1024 * n <= rsum(|i: int| negacyclic_sum(x[i], y[i], k, 256), 0, n) <= 1024 * n,
    decreases n,
{
    if n > 0 {
        lemma_inner_nc_bound(x, y, k, n - 1);
        let i = n - 1;
        assert forall|j: int| 0 <= j < 256 implies -2 <= #[trigger] x[i][j] <= 2 by {}
        assert forall|j: int| 0 <= j < 256 implies -2 <= #[trigger] y[i][j] <= 2 by {}
        lemma_nc_bound(x[i], y[i], k, 256);
    }
}

/// `s^T e1 - e^T r` is at most 24576 in absolute value.
pub proof fn lemma_message_noise_bound(kc: Seq<u8>, coins: Seq<u8>, k: int)
    requires
        0 <= k < 256,
    ensures
        -24576 <= message_noise(kc, coins)[k] <= 24576,
{
    let sseed = keypair_seeds(kc).subrange(32, 64);
    let s = noise_polys(sseed, 0);
    let e = noise_polys(sseed, 12);
    let r = noise_polys(coins, 0);
    let e1 = noise_polys(coins, 12);
    assert forall|i: int, j: int| 0 <= i < 12 && 0 <= j < 256 implies -2 <= #[trigger] s[i][j] <= 2 by {
        lemma_noise_bound(sseed, 0 + i, j);
    }
    assert forall|i: int, j: int| 0 <= i < 12 && 0 <= j < 256 implies -2 <= #[trigger] e[i][j] <= 2 by {
        lemma_noise_bound(sseed, 12 + i, j);
    }
    assert forall|i: int, j: int| 0 <= i < 12 && 0 <= j < 256 implies -2 <= #[trigger] r[i][j] <= 2 by {
        lemma_noise_bound(coins, 0 + i, j);
    }
    assert forall|i: int, j: int| 0 <= i < 12 && 0 <= j < 256 implies -2 <= #[trigger] e1[i][j] <= 2 by {
        lemma_noise_bound(coins, 12 + i, j);
    }
    lemma_inner_nc_bound(s, e1, k, 12);
    lemma_inner_nc_bound(e, r, k, 12);
}

/// An error of at most a quarter of q, seen modulo q.
proof fn lemma_small_within(w: int, v: int)
    requires
        w % q() == v % q(),
        -(q() / 4) < v <= q() / 4,
    ensures
        noise_within(w),
{
    lemma_constants();
    if v >= 0 {
        lemma_small_mod(v as nat, q() as nat);
    } else {
        lemma_mod_add_multiples_vanish(v, q());
        lemma_small_mod((q() + v) as nat, q() as nat);
    }
}

/// Decrypting an encryption gives the message back whenever
/// `s^T e1 - e^T r` leaves room for the uniform error: every coefficient of it
/// lies within `q / 4 - bound` of zero.
pub proof fn lemma_decrypt_encrypt_small_noise(kc: Seq<u8>, coins: Seq<u8>, m: Seq<u8>, bound: int)
    requires
        keypair_seeds(kc).len() == 64,
        m.len() >= 32,
        bound > 0,
        forall|k: int| 0 <= k < 256 ==> -(q() / 4 - bound) <= #[trigger] message_noise(kc, coins)[k] <= q() / 4 - bound,
    ensures
        indcpa_dec_spec(
            indcpa_enc_spec(m, indcpa_keypair_pk_spec(kc), coins, bound),
            indcpa_keypair_sk_spec(kc),
        ) == m.subrange(0, 32),
{
    assert forall|k: int| 0 <= k < 256 implies noise_within(#[trigger] decryption_noise(kc, coins, bound)[k]) by {
        lemma_decryption_noise_normal(kc, coins, bound, k);
        let e2 = uniform_bounded_spec(prf_spec(coins, 24, uniform_buf_len()), bound)[k];
        crate::reference::poly::lemma_uniform_range(prf_spec(coins, 24, uniform_buf_len()), bound, k);
        let sn = message_noise(kc, coins)[k];
        assert(sn == message_noise(kc, coins)[k]);
        lemma_small_within(decryption_noise(kc, coins, bound)[k], sn - e2);
    }
    lemma_decrypt_encrypt(kc, coins, m, bound);
}

/// With the default uniform error bound of encryption (16), decrypting an
/// encryption always gives the message back.
pub proof fn lemma_decrypt_encrypt_default_bound(kc: Seq<u8>, coins: Seq<u8>, m: Seq<u8>)
    requires
        keypair_seeds(kc).len() == 64,
        m.len() >= 32,
    ensures
        indcpa_dec_spec(
            indcpa_enc_spec(m, indcpa_keypair_pk_spec(kc), coins, KYBER_EPP_UNIFORM_BOUND as int),
            indcpa_keypair_sk_spec(kc),
        ) == m.subrange(0, 32),
{
    lemma_constants();
    lemma_decrypt_encrypt_bounded(kc, coins, m, KYBER_EPP_UNIFORM_BOUND as int);
}

/// For every uniform error bound up to `q / 4 - 24576`, decrypting an
/// encryption always gives the message back.
pub proof fn lemma_decrypt_encrypt_bounded(kc: Seq<u8>, coins: Seq<u8>, m: Seq<u8>, bound: int)
    requires
        keypair_seeds(kc).len() == 64,
        m.len() >= 32,
        0 < bound <= q() / 4 - 24576,
    ensures
        indcpa_dec_spec(
            indcpa_enc_spec(m, indcpa_keypair_pk_spec(kc), coins, bound),
            indcpa_keypair_sk_spec(kc),
        ) == m.subrange(0, 32),
{
    assert forall|k: int| 0 <= k < 256 implies -(q() / 4 - bound) <= #[trigger] message_noise(kc, coins)[k] <= q() / 4 - bound by {
        lemma_message_noise_bound(kc, coins, k);
    }
    lemma_decrypt_encrypt_small_noise(kc, coins, m, bound);
}

// ---------------------------------------------------------------------------
// Decoding under an error, and the shape of a key pair.

/// An encoded bit plus an error of less than a quarter of q decodes to the
/// bit.
proof fn lemma_decode_sum(mm: int, e: int)
    requires
        mm == 0 || mm == half_q_spec(),
        -(q() / 4) < e < q() / 4,
    ensures
        decode_bit(mm + e) == decode_bit(mm),
{
    lemma_constants();
    let w = if mm == 0 { e } else { e + 1 };
    lemma_small_within(w, w);
    lemma_decode_noisy(w, mm);
    assert(q() == 4 * (q() / 4) + 1);
    assert(mm + e == (w - mm) + (if mm == 0 { 0 } else { q() }));
    if mm != 0 {
        lemma_mod_add_multiples_vanish(w - mm, q());
    }
    lemma_mod_twice(mm + e, q());
}

/// Decoding tolerates any error below a quarter of q: a message encoded as a
/// polynomial, with `e[k]` added to every coefficient `k`, decodes to the
/// message whenever `|e[k]| < q / 4`.
pub proof fn lemma_msg_decode_tolerance(m: Seq<u8>, e: Seq<int>)
    requires
        m.len() >= 32,
        forall|k: int| 0 <= k < 256 ==> -(q() / 4) < #[trigger] e[k] < q() / 4,
    ensures
        poly_tomsg_spec(Seq::new(256, |k: int| poly_frommsg_spec(m)[k] + e[k])) == m.subrange(0, 32),
{
    let mm = poly_frommsg_spec(m);
    let a = Seq::new(256, |k: int| mm[k] + e[k]);
    assert forall|k: int| 0 <= k < 256 implies #[trigger] decode_bit(a[k]) == decode_bit(mm[k]) by {
        lemma_decode_sum(mm[k], e[k]);
    }
    lemma_tomsg_ext(a, mm);
    lemma_msg_roundtrip(m);
}

/// The key pair derived from `kc`: the public key holds `t = A s + e` (NTT
/// domain) and the seed of `A`, the secret key holds `s`, where `s` and `e`
/// are the noise vectors drawn from the second half of the derived bytes.
pub proof fn lemma_keypair_structure(kc: Seq<u8>)
    requires
        keypair_seeds(kc).len() == 64,
    ensures
        ({
            let seeds = keypair_seeds(kc);
            let s = keypair_s_hat(kc);
            let e = pv_ntt(noise_vec_spec(seeds.subrange(32, 64), 12));
            let a = matrix_spec(seeds.subrange(0, 32), false);
            let t = crate::reference::indcpa::unpack_pk_vec_spec(indcpa_keypair_pk_spec(kc));
            &&& s == pv_ntt(pv_tomont(noise_polys(seeds.subrange(32, 64), 0)))
            &&& e == pv_ntt(pv_tomont(noise_polys(seeds.subrange(32, 64), 12)))
            &&& forall|i: int| 0 <= i < 12 ==> #[trigger] t[i] == madd(polyvec_basemul_acc_spec(a[i], s), e[i])
            &&& indcpa_keypair_pk_spec(kc).subrange(24576, 24608) == seeds.subrange(0, 32)
            &&& crate::reference::indcpa::unpack_sk_spec(indcpa_keypair_sk_spec(kc)) == s
        }),
{
    let seeds = keypair_seeds(kc);
    let seed_a = seeds.subrange(0, 32);
    let s = keypair_s_hat(kc);
    let e = pv_ntt(noise_vec_spec(seeds.subrange(32, 64), 12));
    let a = matrix_spec(seed_a, false);
    let t = keypair_t_hat(kc);
    lemma_noise_vec_tomont(seeds.subrange(32, 64), 0);
    lemma_noise_vec_tomont(seeds.subrange(32, 64), 12);
    lemma_pv_ntt_noise_wf(seeds.subrange(32, 64), 0);
    lemma_pv_ntt_noise_wf(seeds.subrange(32, 64), 12);
    assert forall|j: int| 0 <= j < 12 implies #[trigger] t[j] == madd(polyvec_basemul_acc_spec(a[j], s), e[j]) by {
        assert(t[j] =~= madd(polyvec_basemul_acc_spec(a[j], s), e[j]));
    }
    assert forall|j: int| 0 <= j < 12 implies (#[trigger] t[j]).len() == 256 && canonical(t[j]) by {
        lemma_madd_wf(polyvec_basemul_acc_spec(a[j], s), e[j]);
    }
    assert(polyvec_wf(t));
    lemma_pk_roundtrip(t, seed_a);
    lemma_sk_roundtrip(s);
    assert(seed_a.subrange(0, 32) =~= seed_a);
}

/// The matrix A in the ring (before the transform): entry `(i, j)` sampled
/// from the XOF on `seed || j || i`.
pub open spec fn matrix_ring(seed: Seq<u8>) -> Seq<Seq<Seq<int>>> {
    Seq::new(12, |i: int| Seq::new(12, |j: int|
        crate::reference::indcpa::sample_uniform_spec(crate::reference::symmetric::xof_spec(
            seed.subrange(0, 32), j as u8, i as u8, crate::reference::indcpa::matrix_stream_len()))))
}

/// The public key holds `t = A s + e` in the ring: coefficient `k` of its
/// polynomial `i` is `(sum_j A_ij s_j)_k + e_ik` modulo q, products taken
/// modulo `X^256 + 1`.
pub proof fn lemma_public_key_ring(kc: Seq<u8>, i: int, k: int)
    requires
        keypair_seeds(kc).len() == 64,
        0 <= i < 12,
        0 <= k < 256,
    ensures
        ({
            let seeds = keypair_seeds(kc);
            crate::reference::polyvec::polyvec_frombytes_spec(indcpa_keypair_pk_spec(kc), 0)[i][k]
                == (inner_nc(matrix_ring(seeds.subrange(0, 32))[i], noise_polys(seeds.subrange(32, 64), 0), k)
                    + noise_polys(seeds.subrange(32, 64), 12)[i][k]) % q()
        }),
{
    lemma_constants();
    let seeds = keypair_seeds(kc);
    let sseed = seeds.subrange(32, 64);
    let seed_a = seeds.subrange(0, 32);
    let s = keypair_s_hat(kc);
    let e = pv_ntt(noise_vec_spec(sseed, 12));
    let a = matrix_spec(seed_a, false);
    let t = keypair_t_hat(kc);
    let ar = matrix_ring(seed_a)[i];
    let sr = noise_polys(sseed, 0);
    let er = noise_polys(sseed, 12);
    lemma_keypair_structure(kc);
    // the stored vector is t taken out of the NTT and Montgomery domains
    assert forall|j: int| 0 <= j < 12 implies (#[trigger] t[j]).len() == 256 && canonical(t[j]) by {
        lemma_pv_ntt_noise_wf(sseed, 12);
        lemma_madd_wf(polyvec_basemul_acc_spec(a[j], s), e[j]);
        assert(t[j] =~= madd(polyvec_basemul_acc_spec(a[j], s), e[j]));
    }
    assert(polyvec_wf(t));
    crate::reference::indcpa::lemma_domain_roundtrip(t);
    crate::reference::indcpa::lemma_polyvec_bytes_roundtrip(pv_frommont(crate::reference::polyvec::pv_invntt(t)), seed_a.subrange(0, 32));
    // A_i in the NTT domain is the transform of the Montgomery form of the ring row
    assert(a[i] =~= pv_ntt(pv_tomont(ar)));
    assert(t[i] == madd(polyvec_basemul_acc_spec(a[i], s), e[i])) by {
        assert(t[i] =~= madd(polyvec_basemul_acc_spec(a[i], s), e[i]));
    }
    let acc = polyvec_basemul_acc_spec(a[i], s);
    lemma_acc_wf(a[i], s);
    lemma_pv_ntt_noise_wf(sseed, 12);
    lemma_invntt_add(acc, e[i]);
    lemma_noise_vec_tomont(sseed, 12);
    lemma_noise_vec_tomont(sseed, 0);
    // e_i: the inverse transform undoes the forward one
    let te = poly_tomont_spec(er[i]);
    lemma_tomont_wf(er[i]);
    crate::reference::ntt::lemma_invntt_ntt(te);
    assert(e[i] == ntt_spec(te));
    let ia = invntt_spec(acc);
    let ie = invntt_spec(e[i]);
    assert(ie == te);
    // the acc part
    lemma_inner_product_normal(ar, sr, k);
    assert(poly_frommont_spec(ia)[k] % q() == inner_nc(ar, sr, k) % q());
    // frommont of the sum
    let ri = mont_r_inv();
    let x = crate::reference::polyvec::pv_invntt(t)[i];
    assert(x == madd(ia, ie));
    let val = (x[k] * ri) % q();
    lemma_cong_mod(ia[k] + ie[k]);
    lemma_cong_mul(ri, x[k], ia[k] + ie[k]);
    assert((ia[k] + ie[k]) * ri == ia[k] * ri + ie[k] * ri) by (nonlinear_arith);
    lemma_cong_mod(ia[k] * ri);
    lemma_cong_mod(ie[k] * ri);
    crate::reference::indcpa::lemma_mont_roundtrip(0);
    lemma_mont_cancel(er[i][k]);
    assert(ie[k] == (er[i][k] * mont_r()) % q());
    lemma_cong_add(ia[k] * ri, ie[k] * ri, inner_nc(ar, sr, k), er[i][k]);
    lemma_cong_mod(x[k] * ri);
    assert(val % q() == val);
}

} // verus!
