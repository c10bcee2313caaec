use vstd::prelude::*;

verus! {

/// The BLAKE3 digest of `bytes`, as `blake3::hash` computes it (32 bytes).
pub uninterp spec fn blake3_digest(bytes: Seq<u8>) -> Seq<u8>;

/// `blake3::hash`: the 32-byte BLAKE3 digest of the input, a function of the input alone. The
/// crate documents that feeding the same bytes to a `Hasher` in pieces gives the same digest.
#[verifier::external_body]
fn blake3_hash(bytes: &Vec<u8>) -> (r: [u8; 32])
    ensures
        r@ == blake3_digest(bytes@),
{
    *blake3::hash(bytes.as_slice()).as_bytes()
}

/// The eight little-endian bytes of the `f64` value of a feature code: `0.0`, `1.0` or `-1.0`.
pub open spec fn code_bytes(code: i8) -> Seq<u8> {
    if code == 1 {
        seq![0u8, 0u8, 0u8, 0u8, 0u8, 0u8, 0xf0u8, 0x3fu8]
    } else if code == -1 {
        seq![0u8, 0u8, 0u8, 0u8, 0u8, 0u8, 0xf0u8, 0xbfu8]
    } else {
        seq![0u8, 0u8, 0u8, 0u8, 0u8, 0u8, 0u8, 0u8]
    }
}

/// The bytes that are hashed for a feature vector: the codes' `f64` bytes one after the other.
pub open spec fn feature_bytes(features: Seq<i8>) -> Seq<u8>
    decreases features.len(),
{
    if features.len() == 0 {
        seq![]
    } else {
        feature_bytes(features.drop_last()) + code_bytes(features.last())
    }
}

/// Value of bytes read little-endian.
pub open spec fn le_value(bytes: Seq<u8>) -> int
    decreases bytes.len(),
{
    if bytes.len() == 0 {
        0
    } else {
        bytes[0] + 256 * le_value(bytes.drop_first())
    }
}

pub open spec fn pow256(n: nat) -> int
    decreases n,
{
    if n == 0 {
        1
    } else {
        256 * pow256((n - 1) as nat)
    }
}

/// The hash of a feature vector taken from its digest: the first eight bytes as a
/// little-endian `i64`.
pub open spec fn digest_to_hash(digest: Seq<u8>) -> i64 {
    le_value(digest.take(8)) as i64
}

/// The first eight bytes of `digest` as a little-endian `i64`.
pub fn hash_from_digest(digest: &[u8; 32]) -> (r: i64)
    ensures
        r == digest_to_hash(digest@),
{
    let mut v: u64 = 0;
    let mut i: usize = 8;
    proof {
        assert(digest@.take(8).subrange(8, 8) =~= Seq::<u8>::empty());
    }
    while i > 0
        invariant
            0 <= i <= 8,
            digest@.len() == 32,
            v == le_value(digest@.take(8).subrange(i as int, 8)),
            v < pow256((8 - i) as nat),
        decreases i,
    {
        i = i - 1;
        let ghost rest = digest@.take(8).subrange(i + 1, 8);
        proof {
            let s = digest@.take(8).subrange(i as int, 8);
            assert(s.drop_first() =~= rest);
            assert(s[0] == digest@[i as int]);
            assert(pow256((8 - i) as nat) == 256 * pow256((8 - i - 1) as nat));
            assert(pow256((8 - i) as nat) <= pow256(8)) by {
                lemma_pow256_mono((8 - i) as nat, 8);
            }
            assert(pow256(8) == 0x1_0000_0000_0000_0000) by {
                reveal_with_fuel(pow256, 9);
            }
        }
        v = digest[i] as u64 + 256 * v;
    }
    proof {
        assert(digest@.take(8).subrange(0, 8) =~= digest@.take(8));
    }
    v as i64
}

proof fn lemma_pow256_mono(a: nat, b: nat)
    requires
        a <= b,
    ensures
        1 <= pow256(a) <= pow256(b),
    decreases b,
{
    if a < b {
        lemma_pow256_mono(a, (b - 1) as nat);
    } else if b > 0 {
        lemma_pow256_mono(0, (b - 1) as nat);
    }
}

/// The hash of a feature vector whose entries are feature codes (`-1`, `0` or `1`): its
/// entries as `f64` values, eight little-endian bytes each, hashed with BLAKE3, the first eight
/// bytes of the digest read as a little-endian `i64`.
pub fn hash_features(features: &Vec<i8>) -> (r: i64)
    requires
        forall|i: int| 0 <= i < features@.len() ==> -1 <= #[trigger] features@[i] <= 1,
    ensures
        r == digest_to_hash(blake3_digest(feature_bytes(features@))),
{
    let mut bytes: Vec<u8> = Vec::new();
    let mut i: usize = 0;
    while i < features.len()
        invariant
            0 <= i <= features@.len(),
            forall|j: int| 0 <= j < features@.len() ==> -1 <= #[trigger] features@[j] <= 1,
            bytes@ == feature_bytes(features@.take(i as int)),
        decreases features@.len() - i,
    {
        let code = features[i];
        let high: u8 = if code == 1 {
            0x3f
        } else if code == -1 {
            0xbf
        } else {
            0
        };
        let next_to_high: u8 = if code == 0 {
            0
        } else {
            0xf0
        };
        let mut k: usize = 0;
        while k < 6
            invariant
                0 <= k <= 6,
                bytes@ == feature_bytes(features@.take(i as int)) + Seq::new(k as nat, |j: int| 0u8),
            decreases 6 - k,
        {
            bytes.push(0);
            k = k + 1;
            proof {
                assert(Seq::new((k - 1) as nat, |j: int| 0u8).push(0u8) =~= Seq::new(k as nat, |j: int| 0u8));
            }
        }
        bytes.push(next_to_high);
        bytes.push(high);
        proof {
            assert(features@.take(i + 1).drop_last() =~= features@.take(i as int));
            assert(features@.take(i + 1).last() == code);
            let zeros = Seq::new(6, |j: int| 0u8);
            if code == 1 {
                assert(zeros.push(next_to_high).push(high) =~= code_bytes(code));
            } else if code == -1 {
                assert(zeros.push(next_to_high).push(high) =~= code_bytes(code));
            } else {
                assert(zeros.push(next_to_high).push(high) =~= code_bytes(code));
            }
        }
        i = i + 1;
    }
    proof {
        assert(features@.take(features@.len() as int) =~= features@);
    }
    let digest = blake3_hash(&bytes);
    hash_from_digest(&digest)
}

} // verus!
