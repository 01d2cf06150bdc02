//! Block hashes: a SHA3-256 digest held as four big-endian 64-bit words.

use sha3::Digest;
use vstd::prelude::*;

verus! {

/// The digest of the given bytes, as `sha3::Sha3_256` computes it.
pub uninterp spec fn sha3_256_of(data: Seq<u8>) -> Seq<u8>;

/// Relies on `sha3::Sha3_256::digest` (through `digest::Digest`): the
/// SHA3-256 digest of the bytes, whose output size is 32 bytes.
#[verifier::external_body]
fn sha3_256(data: &Vec<u8>) -> (r: Vec<u8>)
    ensures
        r@ == sha3_256_of(data@),
        r@.len() == 32,
{
    sha3::Sha3_256::digest(data.as_slice()).to_vec()
}

/// A 256-bit block hash.
#[derive(Clone, Copy, Debug, PartialEq, Eq, Structural)]
pub struct BlockHash {
    pub w0: u64,
    pub w1: u64,
    pub w2: u64,
    pub w3: u64,
}

/// `256` to the power `n`.
pub open spec fn pow256(n: nat) -> nat
    decreases n,
{
    if n == 0 {
        1
    } else {
        256 * pow256((n - 1) as nat)
    }
}

/// The bytes read as one big-endian unsigned number.
pub open spec fn be_value(s: Seq<u8>) -> nat
    decreases s.len(),
{
    if s.len() == 0 {
        0
    } else {
        (be_value(s.drop_last()) * 256 + s.last()) as nat
    }
}

/// The hash whose words are the four 8-byte groups of a 32-byte digest.
pub open spec fn hash_from_digest(d: Seq<u8>) -> BlockHash {
    BlockHash {
        w0: be_value(d.subrange(0, 8)) as u64,
        w1: be_value(d.subrange(8, 16)) as u64,
        w2: be_value(d.subrange(16, 24)) as u64,
        w3: be_value(d.subrange(24, 32)) as u64,
    }
}

/// The hash of a byte string.
pub open spec fn hash_of_bytes(data: Seq<u8>) -> BlockHash {
    hash_from_digest(sha3_256_of(data))
}

proof fn lemma_pow256_mono(i: nat, j: nat)
    requires
        i <= j,
    ensures
        pow256(i) <= pow256(j),
    decreases j,
{
    if i < j {
        lemma_pow256_mono(i, (j - 1) as nat);
    }
}

proof fn lemma_be_value_bound(s: Seq<u8>)
    ensures
        be_value(s) < pow256(s.len()),
    decreases s.len(),
{
    if s.len() > 0 {
        lemma_be_value_bound(s.drop_last());
        let a = be_value(s.drop_last());
        let p = pow256((s.len() - 1) as nat);
        let l = s.last() as int;
        assert(a * 256 + l < 256 * p) by (nonlinear_arith)
            requires
                a < p,
                0 <= l < 256,
        ;
    }
}

/// Reads eight bytes from `start` as a big-endian word.
fn word_at(d: &Vec<u8>, start: usize) -> (r: u64)
    requires
        start + 8 <= d@.len(),
    ensures
        r == be_value(d@.subrange(start as int, start + 8)),
{
    let mut w: u64 = 0;
    let mut i: usize = 0;
    while i < 8
        invariant
            start + 8 <= d.len(),
            i <= 8,
            w == be_value(d@.subrange(start as int, start + i)),
        decreases 8 - i,
    {
        let ghost prev = d@.subrange(start as int, start + i);
        let ghost next = d@.subrange(start as int, start + i + 1);
        proof {
            assert(next.drop_last() =~= prev);
            lemma_be_value_bound(prev);
            lemma_pow256_mono(i as nat, 7);
            reveal_with_fuel(pow256, 8);
            assert(pow256(7) == 72057594037927936);
        }
        w = w * 256 + d[start + i] as u64;
        i = i + 1;
    }
    w
}

impl BlockHash {
    /// Packs a 32-byte digest into a hash.
    pub fn from_digest(d: &Vec<u8>) -> (r: BlockHash)
        requires
            d@.len() == 32,
        ensures
            r == hash_from_digest(d@),
    {
        BlockHash {
            w0: word_at(d, 0),
            w1: word_at(d, 8),
            w2: word_at(d, 16),
            w3: word_at(d, 24),
        }
    }

    /// The hash of a byte string: its SHA3-256 digest.
    pub fn of_bytes(data: &Vec<u8>) -> (r: BlockHash)
        ensures
            r == hash_of_bytes(data@),
    {
        let d = sha3_256(data);
        BlockHash::from_digest(&d)
    }
}

} // verus!
