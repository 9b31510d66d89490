//! 256-bit digests as plain byte arrays, lists of them, and the bridge to
//! the tree crate's own digest type.

use sparse_merkle_tree::H256;
use vstd::prelude::*;

verus! {

/// Number of bytes in a digest.
pub const DIGEST_LEN: usize = 32;

/// The all-zero digest: the root of an empty tree and the digest of an
/// absent value.
pub open spec fn zero_digest() -> Seq<u8> {
    Seq::new(32, |i: int| 0u8)
}

/// A list of digests as byte sequences.
pub open spec fn digests_view(list: Seq<[u8; 32]>) -> Seq<Seq<u8>> {
    Seq::new(list.len(), |i: int| list[i]@)
}

/// No digest occurs twice in the list.
pub open spec fn distinct_digests(list: Seq<[u8; 32]>) -> bool {
    forall|i: int, j: int| 0 <= i < j < list.len() ==> list[i]@ != list[j]@
}

/// Returns the all-zero digest.
pub fn zero() -> (d: [u8; 32])
    ensures
        d@ == zero_digest(),
{
    let d: [u8; 32] = [0u8; 32];
    d
}

/// Tells whether two digests hold the same bytes.
pub fn same_digest(a: &[u8; 32], b: &[u8; 32]) -> (same: bool)
    ensures
        same == (a@ == b@),
{
    let mut i: usize = 0;
    while i < 32
        invariant
            i <= 32,
            forall|j: int| 0 <= j < i ==> a@[j] == b@[j],
        decreases 32 - i,
    {
        if a[i] != b[i] {
            return false;
        }
        i += 1;
    }
    assert(a@ =~= b@);
    true
}

/// Tells whether a digest is the all-zero digest.
pub fn is_zero(d: &[u8; 32]) -> (b: bool)
    ensures
        b == (d@ == zero_digest()),
{
    let z = zero();
    same_digest(d, &z)
}

/// Tells whether a digest occurs in a list.
pub fn contains_digest(list: &Vec<[u8; 32]>, d: &[u8; 32]) -> (found: bool)
    ensures
        found == digests_view(list@).contains(d@),
{
    let n = list.len();
    let mut i: usize = 0;
    while i < n
        invariant
            i <= n,
            n == list@.len(),
            forall|j: int| 0 <= j < i ==> list@[j]@ != d@,
        decreases n - i,
    {
        if same_digest(&list[i], d) {
            assert(digests_view(list@)[i as int] == d@);
            return true;
        }
        i += 1;
    }
    assert forall|j: int| 0 <= j < digests_view(list@).len() implies digests_view(list@)[j]
        != d@ by {
    }
    false
}

/// Tells whether no digest occurs twice in a list.
pub fn has_distinct_digests(list: &Vec<[u8; 32]>) -> (distinct: bool)
    ensures
        distinct == distinct_digests(list@),
{
    let n = list.len();
    let mut j: usize = 0;
    while j < n
        invariant
            j <= n,
            n == list@.len(),
            forall|a: int, b: int| 0 <= a < b < j ==> list@[a]@ != list@[b]@,
        decreases n - j,
    {
        let mut i: usize = 0;
        while i < j
            invariant
                i <= j,
                j < n,
                n == list@.len(),
                forall|a: int| 0 <= a < i ==> list@[a]@ != list@[j as int]@,
            decreases j - i,
        {
            if same_digest(&list[i], &list[j]) {
                return false;
            }
            i += 1;
        }
        j += 1;
    }
    true
}

/// The tree crate's digest type, carried through as an opaque value.
#[verifier::external_type_specification]
#[verifier::external_body]
pub struct ExH256(H256);

/// The 32 bytes that an `H256` wraps.
pub uninterp spec fn h256_bytes(h: H256) -> Seq<u8>;

/// Trusted: `H256::from([u8; 32])` wraps exactly the given bytes.
#[verifier::external_body]
pub(crate) fn h256_from_array(bytes: [u8; 32]) -> (h: H256)
    ensures
        h256_bytes(h) == bytes@,
{
    H256::from(bytes)
}

/// Trusted: `<[u8; 32]>::from(H256)` hands out exactly the wrapped bytes.
#[verifier::external_body]
pub(crate) fn h256_to_array(h: &H256) -> (bytes: [u8; 32])
    ensures
        bytes@ == h256_bytes(*h),
{
    <[u8; 32]>::from(*h)
}

} // verus!
