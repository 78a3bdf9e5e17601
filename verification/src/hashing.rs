//! SHA-256 digests and the integers that the registry derives from them.
use sha2::{Digest, Sha256};
use vstd::prelude::*;

verus! {

broadcast use vstd::string::group_string_axioms;

/// The SHA-256 digest of `data`, as `sha2::Sha256::digest` computes it.
pub uninterp spec fn sha256_digest(data: Seq<u8>) -> Seq<u8>;

/// `sha2::Sha256::digest`. The contract claims that the result is the digest
/// named `sha256_digest` of the input bytes, and that it is 32 bytes long,
/// the output size of SHA-256 (`U32` in the crate's output type).
#[verifier::external_body]
fn sha256(data: &[u8]) -> (d: Vec<u8>)
    ensures
        d@ == sha256_digest(data@),
        d@.len() == 32,
{
    Sha256::digest(data).to_vec()
}

/// The digest of the UTF-8 encoding of `text`.
pub open spec fn text_digest(text: Seq<char>) -> Seq<u8> {
    sha256_digest(vstd::utf8::encode_utf8(text))
}

/// `Sha256::digest(text.as_bytes())`.
pub fn digest_text(text: &str) -> (d: Vec<u8>)
    ensures
        d@ == text_digest(text@),
        d@.len() == 32,
{
    let bytes = text.as_bytes();
    sha256(bytes)
}

/// The unsigned integer whose big-endian bytes are `s`.
pub open spec fn be_value(s: Seq<u8>) -> nat
    decreases s.len(),
{
    if s.len() == 0 {
        0
    } else {
        be_value(s.drop_last()) * 256 + s.last() as nat
    }
}

pub open spec fn pow256(n: nat) -> nat
    decreases n,
{
    if n == 0 {
        1
    } else {
        256 * pow256((n - 1) as nat)
    }
}

proof fn lemma_be_step(acc: nat, b: nat, p: nat)
    by (nonlinear_arith)
    requires
        acc < p,
        b < 256,
    ensures
        acc * 256 + b < 256 * p,
{
}

/// `u64::from_be_bytes` applied to `d[start..start + 8]`.
pub fn be_u64_at(d: &Vec<u8>, start: usize) -> (r: u64)
    requires
        start + 8 <= d.len(),
    ensures
        r as nat == be_value(d@.subrange(start as int, start + 8)),
{
    let mut acc: u64 = 0;
    let mut i: usize = 0;
    assert(pow256(8) == 0x1_0000_0000_0000_0000) by {
        reveal_with_fuel(pow256, 9);
    }
    while i < 8
        invariant
            i <= 8,
            start + 8 <= d.len(),
            acc as nat == be_value(d@.subrange(start as int, start + i)),
            (acc as nat) < pow256(i as nat),
            pow256(8) == 0x1_0000_0000_0000_0000,
        decreases 8 - i,
    {
        let b = d[start + i];
        proof {
            lemma_be_step(acc as nat, b as nat, pow256(i as nat));
            lemma_pow256_mono(i as nat + 1, 8);
            assert(d@.subrange(start as int, start + i + 1).drop_last() =~= d@.subrange(
                start as int,
                start + i,
            ));
        }
        acc = acc * 256 + b as u64;
        i += 1;
    }
    acc
}

proof fn lemma_pow256_mono(a: nat, b: nat)
    requires
        a <= b,
    ensures
        pow256(a) <= pow256(b),
    decreases b - a,
{
    if a < b {
        lemma_pow256_mono(a, (b - 1) as nat);
    }
}

/// `usize::try_from(value).unwrap_or(0) % len`.
pub open spec fn index_from(value: nat, len: nat) -> nat {
    if value <= usize::MAX {
        value % len
    } else {
        0
    }
}

/// `usize::try_from(value).unwrap_or(0) % len`.
pub fn pick_index(value: u64, len: usize) -> (r: usize)
    requires
        len > 0,
    ensures
        r as nat == index_from(value as nat, len as nat),
        r < len,
{
    if value <= usize::MAX as u64 {
        (value as usize) % len
    } else {
        0
    }
}

/// An index into a list of `len` items chosen by the first eight bytes of the
/// digest of `text`.
pub open spec fn text_index(text: Seq<char>, len: nat) -> nat {
    index_from(be_value(text_digest(text).subrange(0, 8)), len)
}

} // verus!
