use vstd::prelude::*;

verus! {

/// Bytes squeezed from the matrix XOF per block.
pub const XOF_BLOCKBYTES: usize = 168;

/// The first `outlen` bytes of SHAKE256 applied to `input`.
pub uninterp spec fn spec_shake256(input: Seq<u8>, outlen: nat) -> Seq<u8>;

/// The first `outlen` bytes of SHAKE128 applied to `input`.
pub uninterp spec fn spec_shake128(input: Seq<u8>, outlen: nat) -> Seq<u8>;

/// The 64-byte SHA3-512 digest of `input`.
pub uninterp spec fn spec_sha3_512(input: Seq<u8>) -> Seq<u8>;

/// SHAKE256 of `input`, `outlen` bytes, through the `sha3` crate
/// (`ExtendableOutput::digest_xof` on `Shake256`). Trusted: the result is the
/// XOF output named by `spec_shake256`, of exactly `outlen` bytes.
#[verifier::external_body]
fn shake256(input: &[u8], outlen: usize) -> (out: Vec<u8>)
    ensures
        out@ == spec_shake256(input@, outlen as nat),
        out@.len() == outlen,
{
    let mut out = vec![0u8; outlen];
    <sha3::Shake256 as sha3::digest::ExtendableOutput>::digest_xof(input, &mut out);
    out
}

/// SHAKE128 of `input`, `outlen` bytes, through the `sha3` crate
/// (`ExtendableOutput::digest_xof` on `Shake128`). Trusted: the result is the
/// XOF output named by `spec_shake128`, of exactly `outlen` bytes.
#[verifier::external_body]
fn shake128(input: &[u8], outlen: usize) -> (out: Vec<u8>)
    ensures
        out@ == spec_shake128(input@, outlen as nat),
        out@.len() == outlen,
{
    let mut out = vec![0u8; outlen];
    <sha3::Shake128 as sha3::digest::ExtendableOutput>::digest_xof(input, &mut out);
    out
}

/// SHA3-512 of `input` through the `sha3` crate (`Digest::digest` on
/// `Sha3_512`). Trusted: the result is the digest named by `spec_sha3_512`,
/// 64 bytes long.
#[verifier::external_body]
fn sha3_512(input: &[u8]) -> (out: Vec<u8>)
    ensures
        out@ == spec_sha3_512(input@),
        out@.len() == 64,
{
    <sha3::Sha3_512 as sha3::Digest>::digest(input).to_vec()
}

/// The first `len` bytes of `s` followed by `extra`, as a vector.
fn copy_prefix_with(s: &[u8], len: usize, extra: &[u8]) -> (v: Vec<u8>)
    requires
        len <= s@.len(),
    ensures
        v@ == s@.subrange(0, len as int) + extra@,
{
    let mut v: Vec<u8> = Vec::new();
    let mut i: usize = 0;
    while i < len
        invariant
            i <= len,
            len <= s@.len(),
            v@ == s@.subrange(0, i as int),
        decreases len - i,
    {
        v.push(s[i]);
        i = i + 1;
        assert(v@ =~= s@.subrange(0, i as int));
    }
    let mut k: usize = 0;
    while k < extra.len()
        invariant
            k <= extra@.len(),
            v@ == s@.subrange(0, len as int) + extra@.subrange(0, k as int),
        decreases extra@.len() - k,
    {
        v.push(extra[k]);
        k = k + 1;
        assert(v@ =~= s@.subrange(0, len as int) + extra@.subrange(0, k as int));
    }
    assert(extra@.subrange(0, extra@.len() as int) =~= extra@);
    v
}

/// Pseudo-random bytes keyed by a 32-byte key and a one-byte nonce.
pub open spec fn prf_spec(key: Seq<u8>, nonce: u8, outlen: nat) -> Seq<u8> {
    spec_shake256(key.push(nonce), outlen)
}

/// Uniform-looking bytes for matrix entry (x, y) from a 32-byte seed.
pub open spec fn xof_spec(seed: Seq<u8>, x: u8, y: u8, outlen: nat) -> Seq<u8> {
    spec_shake128(seed.push(x).push(y), outlen)
}

/// Name:  prf
///
/// Description: `outlen` pseudo-random bytes, SHAKE256 of `key || nonce`.
pub fn prf(key: &[u8], nonce: u8, outlen: usize) -> (out: Vec<u8>)
    requires
        key@.len() == 32,
    ensures
        out@ == prf_spec(key@, nonce, outlen as nat),
        out@.len() == outlen,
{
    let n = [nonce];
    let ext = copy_prefix_with(key, 32, &n);
    assert(ext@ =~= key@.push(nonce));
    shake256(ext.as_slice(), outlen)
}

/// Name:  xof
///
/// Description: `outlen` bytes of SHAKE128 of `seed || x || y`, the stream
///  from which matrix entries are sampled.
pub fn xof(seed: &[u8], x: u8, y: u8, outlen: usize) -> (out: Vec<u8>)
    requires
        seed@.len() >= 32,
    ensures
        out@ == xof_spec(seed@.subrange(0, 32), x, y, outlen as nat),
        out@.len() == outlen,
{
    let n = [x, y];
    let ext = copy_prefix_with(seed, 32, &n);
    assert(ext@ =~= seed@.subrange(0, 32).push(x).push(y));
    shake128(ext.as_slice(), outlen)
}

/// Name:  hash_g
///
/// Description: SHA3-512 of the first `inlen` bytes of `input`, written to
///  the first 64 bytes of `out`.
pub fn hash_g(out: &mut [u8], input: &[u8], inlen: usize)
    requires
        old(out)@.len() >= 64,
        inlen <= input@.len(),
    ensures
        final(out)@.len() == old(out)@.len(),
        final(out)@.subrange(0, 64) == spec_sha3_512(input@.subrange(0, inlen as int)),
        final(out)@.subrange(64, final(out)@.len() as int) == old(out)@.subrange(64, old(out)@.len() as int),
{
    let empty: [u8; 0] = [];
    let msg = copy_prefix_with(input, inlen, &empty);
    assert(msg@ =~= input@.subrange(0, inlen as int));
    let h = sha3_512(msg.as_slice());
    let ghost out0 = out@;
    let mut i: usize = 0;
    while i < 64
        invariant
            i <= 64,
            h@.len() == 64,
            out@.len() == out0.len(),
            out0.len() >= 64,
            forall|j: int| 0 <= j < i ==> #[trigger] out@[j] == h@[j],
            forall|j: int| i <= j < out@.len() ==> #[trigger] out@[j] == out0[j],
        decreases 64 - i,
    {
        out[i] = h[i];
        i = i + 1;
    }
    assert(out@.subrange(0, 64) =~= h@);
    assert(out@.subrange(64, out@.len() as int) =~= out0.subrange(64, out0.len() as int));
}

} // verus!
