//! Personalised BLAKE2b-256: the streaming state, the node hasher that the
//! tree uses to combine digests, and the one-shot hash for keys and values.

use crate::digest::{h256_bytes, h256_from_array, h256_to_array};
use blake2b_ref::{Blake2b, Blake2bBuilder};
use sparse_merkle_tree::traits::Hasher;
use sparse_merkle_tree::H256;
use vstd::prelude::*;

verus! {

/// A running BLAKE2b computation, carried through as an opaque value.
#[verifier::external_type_specification]
#[verifier::external_body]
pub struct ExBlake2b(Blake2b);

/// The BLAKE2b-256 digest of `data` under the given personalisation and key.
pub uninterp spec fn blake2b_256(personal: Seq<u8>, key: Seq<u8>, data: Seq<u8>) -> Seq<u8>;

/// The personalisation a running computation was started with.
pub uninterp spec fn personal_of(state: Blake2b) -> Seq<u8>;

/// The key a running computation was started with.
pub uninterp spec fn key_of(state: Blake2b) -> Seq<u8>;

/// Everything a running computation has been fed so far, in order.
pub uninterp spec fn absorbed(state: Blake2b) -> Seq<u8>;

/// The number of bytes a running computation will put out.
pub uninterp spec fn output_len_of(state: Blake2b) -> nat;

/// Trusted: `Blake2bBuilder::new(32).personal(..).key(..).build()` starts a
/// 32-byte-output computation with the given personalisation and key that
/// has been fed nothing yet. The builder panics on a personalisation longer
/// than 16 bytes or a key longer than 64, so both are required to fit.
#[verifier::external_body]
fn blake2b_start(personal: &[u8], key: &[u8]) -> (state: Blake2b)
    requires
        personal@.len() <= 16,
        key@.len() <= 64,
    ensures
        output_len_of(state) == 32,
        personal_of(state) == personal@,
        key_of(state) == key@,
        absorbed(state) == Seq::<u8>::empty(),
{
    Blake2bBuilder::new(32).personal(personal).key(key).build()
}

/// Trusted: `Blake2b::update` appends `data` to what the computation has
/// been fed and leaves its parameters alone. It does not panic.
#[verifier::external_body]
fn blake2b_absorb(state: &mut Blake2b, data: &[u8])
    ensures
        absorbed(*final(state)) == absorbed(*old(state)) + data@,
        output_len_of(*final(state)) == output_len_of(*old(state)),
        personal_of(*final(state)) == personal_of(*old(state)),
        key_of(*final(state)) == key_of(*old(state)),
    no_unwind
{
    state.update(data)
}

/// Trusted: `Blake2b::finalize` of a 32-byte-output computation into a
/// 32-byte buffer yields the BLAKE2b-256 digest of everything fed so far,
/// under the parameters the computation was started with.
#[verifier::external_body]
fn blake2b_finish(state: Blake2b) -> (out: [u8; 32])
    requires
        output_len_of(state) == 32,
    ensures
        out@ == blake2b_256(personal_of(state), key_of(state), absorbed(state)),
{
    let mut out = [0u8; 32];
    state.finalize(&mut out);
    out
}

/// Personalisation of the node hasher: the ASCII bytes of `sparsemerkletree`.
pub open spec fn node_personal() -> Seq<u8> {
    seq![
        0x73u8, 0x70u8, 0x61u8, 0x72u8, 0x73u8, 0x65u8, 0x6du8, 0x65u8,
        0x72u8, 0x6bu8, 0x6cu8, 0x65u8, 0x74u8, 0x72u8, 0x65u8, 0x65u8,
    ]
}

/// Personalisation of the hash for keys and values: the ASCII bytes of `SMT`.
pub open spec fn leaf_personal() -> Seq<u8> {
    seq![0x53u8, 0x4du8, 0x54u8]
}

/// The digest the node hasher produces for `data`.
pub open spec fn node_digest(data: Seq<u8>) -> Seq<u8> {
    blake2b_256(node_personal(), Seq::<u8>::empty(), data)
}

/// The digest of `data` under the key-and-value personalisation.
pub open spec fn leaf_digest(data: Seq<u8>) -> Seq<u8> {
    blake2b_256(leaf_personal(), Seq::<u8>::empty(), data)
}

/// The hasher the tree combines digests with: BLAKE2b-256, unkeyed,
/// personalised with `sparsemerkletree`.
pub struct Blake2bHasher(Blake2b);

impl Blake2bHasher {
    /// Every hasher is an unkeyed 32-byte-output computation under the
    /// node personalisation.
    #[verifier::type_invariant]
    spec fn is_node_hasher(self) -> bool {
        &&& output_len_of(self.0) == 32
        &&& personal_of(self.0) == node_personal()
        &&& key_of(self.0) == Seq::<u8>::empty()
    }

    /// The bytes written so far.
    pub closed spec fn view(&self) -> Seq<u8> {
        absorbed(self.0)
    }
}

impl Default for Blake2bHasher {
    /// A fresh node hasher, with nothing written yet.
    fn default() -> (hasher: Self)
        ensures
            hasher@ == Seq::<u8>::empty(),
    {
        let personal: [u8; 16] = [
            0x73, 0x70, 0x61, 0x72, 0x73, 0x65, 0x6d, 0x65,
            0x72, 0x6b, 0x6c, 0x65, 0x74, 0x72, 0x65, 0x65,
        ];
        let key: [u8; 0] = [];
        assert(key@ =~= Seq::<u8>::empty());
        Blake2bHasher(blake2b_start(personal.as_slice(), key.as_slice()))
    }
}

impl Hasher for Blake2bHasher {
    /// Writes the 32 bytes of a digest.
    fn write_h256(&mut self, h: &H256)
        ensures
            final(self)@ == old(self)@ + h256_bytes(*h),
    {
        let bytes = h256_to_array(h);
        proof {
            use_type_invariant(&*self);
        }
        blake2b_absorb(&mut self.0, bytes.as_slice());
    }

    /// Writes one byte.
    fn write_byte(&mut self, b: u8)
        ensures
            final(self)@ == old(self)@.push(b),
    {
        let bytes: [u8; 1] = [b];
        proof {
            use_type_invariant(&*self);
        }
        blake2b_absorb(&mut self.0, bytes.as_slice());
    }

    /// Ends the computation and returns the node digest of everything
    /// written.
    fn finish(self) -> (h: H256)
        ensures
            h256_bytes(h) == node_digest(self@),
    {
        proof {
            use_type_invariant(&self);
        }
        h256_from_array(blake2b_finish(self.0))
    }
}

/// Starts the hash used for keys and values: BLAKE2b-256, unkeyed,
/// personalised with `SMT`.
fn new_blake2b() -> (state: Blake2b)
    ensures
        output_len_of(state) == 32,
        personal_of(state) == leaf_personal(),
        key_of(state) == Seq::<u8>::empty(),
        absorbed(state) == Seq::<u8>::empty(),
{
    let personal: [u8; 3] = [0x53, 0x4d, 0x54];
    let key: [u8; 0] = [];
    blake2b_start(personal.as_slice(), key.as_slice())
}

/// Hashes `data` under the key-and-value personalisation.
pub fn hash_leaf(data: &[u8]) -> (out: [u8; 32])
    ensures
        out@ == leaf_digest(data@),
{
    let mut state = new_blake2b();
    blake2b_absorb(&mut state, data);
    blake2b_finish(state)
}

} // verus!
