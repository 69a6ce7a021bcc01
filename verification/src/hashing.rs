//! Content hashing and byte encoding.
//!
//! The cache is content-addressed: a compiled binary is identified by the
//! SHA-256 digest of its bytes, and a measurement key's filename is the
//! digest of the key's canonical byte encoding.  The digest itself comes
//! from an outside implementation; the canonical encoding and the
//! little-endian length prefixes are verified here.

use vstd::prelude::*;

verus! {

/// The SHA-256 digest of a byte string.
pub uninterp spec fn sha256_of(bytes: Seq<u8>) -> Seq<u8>;

/// Computes the SHA-256 digest of `bytes`.
///
/// Relies on `sha2::Sha256`: the digest is a function of the input bytes
/// alone, and is 32 bytes long.
#[verifier::external_body]
pub fn sha256(bytes: &[u8]) -> (r: Vec<u8>)
    ensures
        r@ == sha256_of(bytes@),
        r@.len() == 32,
{
    let digest = <sha2::Sha256 as sha2::Digest>::digest(bytes);
    digest.as_slice().to_vec()
}

/// `256^i`.
pub open spec fn pow256(i: nat) -> nat
    decreases i,
{
    if i == 0 {
        1
    } else {
        256 * pow256((i - 1) as nat)
    }
}

/// The eight-byte little-endian encoding of `n`.
pub open spec fn le8(n: nat) -> Seq<u8> {
    Seq::new(8, |i: int| ((n / pow256(i as nat)) % 256) as u8)
}

/// Writes `n` as eight little-endian bytes.
pub fn u64_le_bytes(n: u64) -> (r: Vec<u8>)
    ensures
        r@ == le8(n as nat),
{
    let mut r: Vec<u8> = Vec::new();
    let mut m: u64 = n;
    let mut i: usize = 0;
    proof {
        assert(pow256(0) == 1);
        assert(n as nat / 1 == n as nat) by (nonlinear_arith);
    }
    while i < 8
        invariant
            i <= 8,
            r@.len() == i,
            m == n as nat / pow256(i as nat),
            forall|k: int| 0 <= k < i ==> r@[k] == le8(n as nat)[k],
        decreases 8 - i,
    {
        r.push((m % 256) as u8);
        proof {
            assert(pow256((i + 1) as nat) == 256 * pow256(i as nat));
            assert(pow256(i as nat) > 0) by {
                lemma_pow256_pos(i as nat);
            }
            vstd::arithmetic::div_mod::lemma_div_denominator(
                n as int,
                pow256(i as nat) as int,
                256,
            );
        }
        m = m / 256;
        i = i + 1;
    }
    proof {
        assert(r@ =~= le8(n as nat));
    }
    r
}

/// Powers of 256 are positive.
pub proof fn lemma_pow256_pos(i: nat)
    ensures
        pow256(i) > 0,
    decreases i,
{
    if i > 0 {
        lemma_pow256_pos((i - 1) as nat);
    }
}

/// Copies a byte vector.
pub fn bytes_clone(src: &Vec<u8>) -> (r: Vec<u8>)
    ensures
        r@ == src@,
{
    let mut r: Vec<u8> = Vec::new();
    let mut i: usize = 0;
    while i < src.len()
        invariant
            i <= src@.len(),
            r@ == src@.subrange(0, i as int),
        decreases src@.len() - i,
    {
        r.push(src[i]);
        proof {
            assert(src@.subrange(0, i + 1) =~= src@.subrange(0, i as int).push(src@[i as int]));
        }
        i = i + 1;
    }
    proof {
        assert(src@.subrange(0, src@.len() as int) =~= src@);
    }
    r
}

/// Appends every byte of `src` to `dst`.
pub fn append_bytes(dst: &mut Vec<u8>, src: &[u8])
    ensures
        final(dst)@ == old(dst)@ + src@,
{
    let mut i: usize = 0;
    while i < src.len()
        invariant
            i <= src@.len(),
            dst@ == old(dst)@ + src@.subrange(0, i as int),
        decreases src@.len() - i,
    {
        dst.push(src[i]);
        proof {
            assert(old(dst)@ + src@.subrange(0, i + 1) =~= (old(dst)@ + src@.subrange(
                0,
                i as int,
            )).push(src@[i as int]));
        }
        i = i + 1;
    }
    proof {
        assert(src@.subrange(0, src@.len() as int) =~= src@);
    }
}

} // verus!
