use vstd::prelude::*;
use vstd::arithmetic::div_mod::*;
use vstd::arithmetic::mul::*;
use crate::params::KYBER_Q;

verus! {

/// The Montgomery radix 2^64.
pub const MONT_R: u128 = 0x1_0000_0000_0000_0000u128;
const R_MASK: u128 = 0xffff_ffff_ffff_ffffu128;
/// -q^{-1} mod 2^64
pub const QINV: u128 = 1695300616315495935u128;

/// The modulus as a mathematical integer.
pub open spec fn q() -> int {
    KYBER_Q as int
}

/// The Montgomery radix as a mathematical integer.
pub open spec fn mont_r() -> int {
    MONT_R as int
}

/// The inverse of the Montgomery radix modulo q.
pub open spec fn mont_r_inv() -> int {
    1271475462236046151
}

/// Montgomery reduction of `a`: the quotient `(a + t q) / 2^64`, where
/// `t = (a mod 2^64) * (-q^{-1}) mod 2^64` makes the division exact,
/// followed by one conditional subtraction of q.
pub open spec fn montgomery_reduce_spec(a: int) -> int {
    let t = ((a % mont_r()) * (QINV as int)) % mont_r();
    let s = (a + t * q()) / mont_r();
    if s >= q() {
        s - q()
    } else {
        s
    }
}

/// Facts about the concrete constants that the reductions rely on.
pub proof fn lemma_constants()
    ensures
        q() > 0,
        q() % 2 == 1,
        mont_r() == 0x1_0000_0000_0000_0000,
        ((QINV as int) * q() + 1) % mont_r() == 0,
        (mont_r() * mont_r_inv()) % q() == 1,
        0 < mont_r_inv() < q(),
        q() < mont_r(),
        2 * q() > mont_r(),
{
}

/// `(x * m) % m` is zero and adding a multiple of m does not change a residue.
proof fn lemma_mod_add_mul(x: int, k: int, m: int)
    requires
        m > 0,
    ensures
        (x + k * m) % m == x % m,
{
    lemma_mod_multiples_vanish(k, x, m);
    assert(m * k + x == x + k * m) by { lemma_mul_is_commutative(m, k); }
}

/// Montgomery reduction is exact division by 2^64 modulo q, and it lands in
/// [0, q) whenever its input is below q * 2^64.
pub proof fn lemma_montgomery_reduce_spec(a: int)
    requires
        0 <= a < 0x1_0000_0000_0000_0000_0000_0000_0000_0000,
    ensures
        0 <= montgomery_reduce_spec(a),
        montgomery_reduce_spec(a) < mont_r() + q(),
        (montgomery_reduce_spec(a) * mont_r()) % q() == a % q(),
        a < q() * mont_r() ==> montgomery_reduce_spec(a) < q(),
        montgomery_reduce_spec(a) % q() == (a * mont_r_inv()) % q(),
{
    lemma_constants();
    let r = mont_r();
    let qq = q();
    let qi = QINV as int;
    let t = ((a % r) * qi) % r;
    let s = (a + t * qq) / r;
    lemma_mod_bound(a, r);
    lemma_mod_bound((a % r) * qi, r);
    assert(0 <= t < r);
    // (a + t q) is divisible by r
    assert((a + t * qq) % r == 0) by {
        lemma_fundamental_div_mod((a % r) * qi, r);
        let u = ((a % r) * qi) / r;
        assert(t == (a % r) * qi - u * r);
        lemma_fundamental_div_mod(a, r);
        let v = a / r;
        assert(a == v * r + a % r) by { lemma_mul_is_commutative(v, r); }
        // a + t q = v r + (a%r) + ((a%r) qi - u r) q = v r - u q r + (a%r)(qi q + 1)
        let w = (qi * qq + 1) / r;
        lemma_fundamental_div_mod(qi * qq + 1, r);
        assert(qi * qq + 1 == w * r) by { lemma_mul_is_commutative(w, r); }
        assert(a + t * qq == (v - u * qq + (a % r) * w) * r) by (nonlinear_arith)
            requires
                a == v * r + a % r,
                t == (a % r) * qi - u * r,
                qi * qq + 1 == w * r,
        ;
        lemma_mod_multiples_basic(v - u * qq + (a % r) * w, r);
    }
    lemma_fundamental_div_mod(a + t * qq, r);
    assert(a + t * qq == s * r) by { lemma_mul_is_commutative(s, r); }
    // bounds on s
    assert(t * qq <= (r - 1) * qq) by (nonlinear_arith)
        requires 0 <= t < r, qq > 0;
    assert(0 <= s) by (nonlinear_arith)
        requires a + t * qq == s * r, r > 0, a >= 0, t >= 0, qq > 0;
    assert(s < r + qq) by (nonlinear_arith)
        requires
            a + t * qq == s * r,
            r == 0x1_0000_0000_0000_0000,
            a < 0x1_0000_0000_0000_0000_0000_0000_0000_0000,
            t * qq <= (r - 1) * qq,
            qq > 0;
    if a < qq * r {
        assert(s < 2 * qq) by (nonlinear_arith)
            requires
                a + t * qq == s * r,
                r > 0,
                a < qq * r,
                t * qq <= (r - 1) * qq,
                qq > 0;
    }
    // s r == a (mod q)
    let res = montgomery_reduce_spec(a);
    assert(res == s || res == s - qq);
    assert((res * r) % qq == a % qq) by {
        if res == s - qq {
            assert(res * r == s * r + (-r) * qq) by (nonlinear_arith)
                requires res == s - qq;
        } else {
            assert(res * r == s * r + 0 * qq);
        }
        assert(s * r == a + t * qq);
        if res == s - qq {
            lemma_mod_add_mul(s * r, -r, qq);
        } else {
            lemma_mod_add_mul(s * r, 0, qq);
        }
        lemma_mod_add_mul(a, t, qq);
    }
    // res == a * r^{-1} (mod q)
    assert(res % qq == (a * mont_r_inv()) % qq) by {
        let ri = mont_r_inv();
        lemma_mul_mod_noop_left(res * r, ri, qq);
        lemma_mul_mod_noop_left(a, ri, qq);
        assert((res * r) * ri == res * (r * ri)) by { lemma_mul_is_associative(res, r, ri); }
        lemma_mul_mod_noop_right(res, r * ri, qq);
        assert(res * ((r * ri) % qq) == res);
        // (res r) ri % q == (a % q) ri % q... chain
        assert(((res * r) % qq * ri) % qq == ((a % qq) * ri) % qq);
    }
}

/// Montgomery reduction: for `a < q 2^64` returns `a 2^{-64} mod q` in [0, q).
#[inline]
pub fn montgomery_reduce(a: u128) -> (r: i128)
    ensures
        r as int == montgomery_reduce_spec(a as int),
        0 <= r < mont_r() + q(),
        (r * mont_r()) % q() == (a as int) % q(),
        (a as int) < q() * mont_r() ==> r < q(),
        (a as int) < q() * mont_r() ==> r as int == ((a as int) * mont_r_inv()) % q(),
{
    proof {
        lemma_montgomery_reduce_spec(a as int);
        lemma_constants();
    }
    let a_lo = a & R_MASK;
    let a_hi = a >> 64u32;
    proof {
        assert(a & 0xffff_ffff_ffff_ffffu128 == a % 0x1_0000_0000_0000_0000u128) by (bit_vector);
        assert(a >> 64u32 == a / 0x1_0000_0000_0000_0000u128) by (bit_vector);
        assert(a_lo < 0x1_0000_0000_0000_0000u128);
        assert(a_lo * QINV < 0x1_0000_0000_0000_0000u128 * 0x2000_0000_0000_0000u128) by (nonlinear_arith)
            requires a_lo < 0x1_0000_0000_0000_0000u128, QINV < 0x2000_0000_0000_0000u128;
    }
    let prod = a_lo * QINV;
    let t = prod & R_MASK;
    proof {
        assert(prod & 0xffff_ffff_ffff_ffffu128 == prod % 0x1_0000_0000_0000_0000u128) by (bit_vector);
        assert(t < 0x1_0000_0000_0000_0000u128);
        assert(t * KYBER_Q < 0x1_0000_0000_0000_0000u128 * 0x1_0000_0000_0000_0000u128) by (nonlinear_arith)
            requires t < 0x1_0000_0000_0000_0000u128, KYBER_Q < 0x1_0000_0000_0000_0000u128;
    }
    let mq = t * KYBER_Q;
    let mq_lo = mq & R_MASK;
    let mq_hi = mq >> 64u32;
    proof {
        assert(mq & 0xffff_ffff_ffff_ffffu128 == mq % 0x1_0000_0000_0000_0000u128) by (bit_vector);
        assert(mq >> 64u32 == mq / 0x1_0000_0000_0000_0000u128) by (bit_vector);
        assert(mq_hi < 0x1_0000_0000_0000_0000u128) by (nonlinear_arith)
            requires mq_hi == mq / 0x1_0000_0000_0000_0000u128, mq < 0x1_0000_0000_0000_0000u128 * 0x1_0000_0000_0000_0000u128;
        assert(a_hi < 0x1_0000_0000_0000_0000u128) by (nonlinear_arith)
            requires a_hi == a / 0x1_0000_0000_0000_0000u128, a <= u128::MAX;
    }
    // Compute carry from 64-bit addition: (a_lo + mq_lo) >> 64
    let sum_lo = a_lo + mq_lo;
    let carry = sum_lo >> 64u32;
    proof {
        assert(sum_lo >> 64u32 == sum_lo / 0x1_0000_0000_0000_0000u128) by (bit_vector);
        assert(carry <= 1);
    }
    let sum_hi = a_hi + mq_hi + carry;
    proof {
        let r = mont_r();
        let ai = a as int;
        let mqi = mq as int;
        lemma_fundamental_div_mod(ai, r);
        lemma_fundamental_div_mod(mqi, r);
        lemma_fundamental_div_mod(sum_lo as int, r);
        assert(ai + mqi == (sum_hi as int) * r + (sum_lo as int) % r) by (nonlinear_arith)
            requires
                ai == r * (a_hi as int) + a_lo,
                mqi == r * (mq_hi as int) + mq_lo,
                sum_lo as int == a_lo + mq_lo,
                sum_lo as int == r * (carry as int) + (sum_lo as int) % r,
                sum_hi as int == a_hi + mq_hi + carry,
        ;
        lemma_mod_bound(sum_lo as int, r);
        lemma_fundamental_div_mod_converse(ai + mqi, r, sum_hi as int, (sum_lo as int) % r);
        assert(mqi == (t as int) * q());
        assert((t as int) == (((ai % r) * (QINV as int)) % r));
    }
    let mut res = sum_hi;  // low limb cancels
    if res >= KYBER_Q {
        res = res - KYBER_Q;
    }
    proof {
        if (a as int) < q() * mont_r() {
            lemma_small_mod(res as nat, q() as nat);
        }
    }
    res as i128
}

/// Reduction to the canonical representative in [0, q).
#[inline]
pub fn barrett_reduce(a: i128) -> (r: i128)
    ensures
        r as int == (a as int) % q(),
{
    let qq = KYBER_Q as i128;
    let mut r = a % qq;
    proof {
        lemma_constants();
        lemma_fundamental_div_mod(a as int, q());
        lemma_mod_bound(a as int, q());
    }
    if r < 0 {
        r = r + qq;
    }
    proof {
        // Rust's remainder truncates; r now differs from a by a multiple of q
        let d = (a as int) - (r as int);
        assert(0 <= r < q());
        assert(d % q() == 0) by {
            assert(a as int == (a as int / qq as int) * (qq as int) + (a as int % qq as int)) by {
                lemma_fundamental_div_mod(a as int, qq as int);
                lemma_mul_is_commutative(a as int / qq as int, qq as int);
            }
        }
        lemma_fundamental_div_mod(d, q());
        let k = d / q();
        assert(a as int == r as int + k * q()) by { lemma_mul_is_commutative(k, q()); }
        lemma_mod_add_mul(r as int, k, q());
        lemma_small_mod(r as nat, q() as nat);
    }
    r
}

/// Modular product of two arbitrary integers, in [0, q).
#[inline]
pub fn mul_mod(a: i128, b: i128) -> (r: i128)
    ensures
        r as int == ((a as int) * (b as int)) % q(),
{
    let aa = barrett_reduce(a) as u128;
    let bb = barrett_reduce(b) as u128;
    proof {
        lemma_constants();
        assert(aa * bb < 0x1_0000_0000_0000_0000u128 * 0x1_0000_0000_0000_0000u128) by (nonlinear_arith)
            requires aa < 0x1_0000_0000_0000_0000u128, bb < 0x1_0000_0000_0000_0000u128;
        lemma_mul_mod_noop(a as int, b as int, q());
    }
    ((aa * bb) % KYBER_Q) as i128
}

/// Modular sum of two canonical representatives.
#[inline]
pub fn add_mod(a: u64, b: u64) -> (r: u64)
    requires
        (a as int) < q(),
        (b as int) < q(),
    ensures
        r as int == ((a as int) + (b as int)) % q(),
{
    proof { lemma_constants(); }
    let s = a as u128 + b as u128;
    if s >= KYBER_Q {
        proof { lemma_mod_add_mul((s - KYBER_Q) as int, 1, q()); lemma_small_mod((s - KYBER_Q) as nat, q() as nat); }
        (s - KYBER_Q) as u64
    } else {
        proof { lemma_small_mod(s as nat, q() as nat); }
        s as u64
    }
}

/// Modular difference of two canonical representatives.
#[inline]
pub fn sub_mod(a: u64, b: u64) -> (r: u64)
    requires
        (a as int) < q(),
        (b as int) < q(),
    ensures
        r as int == ((a as int) - (b as int)) % q(),
{
    proof { lemma_constants(); }
    if a >= b {
        proof { lemma_small_mod((a - b) as nat, q() as nat); }
        a - b
    } else {
        let s = (a as u128 + KYBER_Q) - b as u128;
        proof {
            lemma_small_mod(s as nat, q() as nat);
            lemma_mod_add_mul((a as int) - (b as int), 1, q());
        }
        s as u64
    }
}

// ---------------------------------------------------------------------------
// Congruences modulo q.

/// Residues of congruent summands give congruent sums.
pub(crate) proof fn lemma_cong_add(a: int, b: int, c: int, d: int)
    requires
        a % q() == c % q(),
        b % q() == d % q(),
    ensures
        (a + b) % q() == (c + d) % q(),
{
    lemma_constants();
    lemma_add_mod_noop(a, b, q());
    lemma_add_mod_noop(c, d, q());
}

/// Residues of congruent operands give congruent differences.
pub(crate) proof fn lemma_cong_sub(a: int, b: int, c: int, d: int)
    requires
        a % q() == c % q(),
        b % q() == d % q(),
    ensures
        (a - b) % q() == (c - d) % q(),
{
    lemma_constants();
    lemma_sub_mod_noop(a, b, q());
    lemma_sub_mod_noop(c, d, q());
}

/// Multiplying congruent values by the same factor keeps them congruent.
pub(crate) proof fn lemma_cong_mul(k: int, a: int, c: int)
    requires
        a % q() == c % q(),
    ensures
        (k * a) % q() == (k * c) % q(),
        (a * k) % q() == (c * k) % q(),
{
    lemma_constants();
    lemma_mul_mod_noop_right(k, a, q());
    lemma_mul_mod_noop_right(k, c, q());
    lemma_mul_mod_noop_left(a, k, q());
    lemma_mul_mod_noop_left(c, k, q());
}

/// A value is congruent to its residue.
pub(crate) proof fn lemma_cong_mod(a: int)
    ensures
        (a % q()) % q() == a % q(),
{
    lemma_constants();
    lemma_mod_twice(a, q());
}

} // verus!
