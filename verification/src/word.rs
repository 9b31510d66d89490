//! The values stored in the tree and the keys they are stored under.

use crate::digest::{h256_bytes, h256_from_array, zero, zero_digest};
use crate::hashing::{hash_leaf, leaf_digest};
use sparse_merkle_tree::traits::Value;
use sparse_merkle_tree::H256;
use vstd::prelude::*;
use vstd::string::StringSliceAdditionalSpecFns;
use vstd::utf8::encode_utf8;

verus! {

/// The leaf digest of a word: the all-zero digest for the empty word,
/// otherwise the leaf hash of its UTF-8 bytes.
pub open spec fn word_digest(word: Seq<char>) -> Seq<u8> {
    if word.len() == 0 {
        zero_digest()
    } else {
        leaf_digest(encode_utf8(word))
    }
}

/// The four bytes of `index`, least significant first.
pub open spec fn le_bytes(index: u32) -> Seq<u8> {
    seq![
        (index % 256) as u8,
        ((index / 256) % 256) as u8,
        ((index / 65536) % 256) as u8,
        (index / 16777216) as u8,
    ]
}

/// The key under which the word with the given index is stored.
pub open spec fn index_key_spec(index: u32) -> Seq<u8> {
    leaf_digest(le_bytes(index))
}

/// A word stored in the tree. The empty word is the zero value: storing it
/// under a key deletes that key.
#[derive(Clone, Copy)]
pub struct Word<'a>(&'a str);

impl<'a> Word<'a> {
    /// The characters of the word.
    pub closed spec fn view(&self) -> Seq<char> {
        self.0@
    }

    /// Wraps a string slice.
    pub fn new(text: &'a str) -> (word: Self)
        ensures
            word@ == text@,
    {
        Word(text)
    }

    /// The wrapped string slice.
    pub fn as_str(&self) -> (text: &'a str)
        ensures
            text@ == self@,
    {
        self.0
    }

    /// Tells whether this is the zero value.
    pub fn is_zero(&self) -> (b: bool)
        ensures
            b == (self@.len() == 0),
    {
        self.0.is_empty()
    }

    /// The leaf digest of the word.
    pub fn to_digest(&self) -> (digest: [u8; 32])
        ensures
            digest@ == word_digest(self@),
    {
        if self.0.is_empty() {
            return zero();
        }
        hash_leaf(self.0.as_bytes())
    }
}

impl<'a> Default for Word<'a> {
    /// The zero value.
    fn default() -> (word: Self)
        ensures
            word@ == Seq::<char>::empty(),
    {
        let text = "";
        proof {
            reveal_strlit("");
        }
        Word(text)
    }
}

impl<'a> Value for Word<'a> {
    /// The leaf digest of the word, as the tree takes it.
    fn to_h256(&self) -> (h: H256)
        ensures
            h256_bytes(h) == word_digest(self@),
    {
        h256_from_array(self.to_digest())
    }

    /// The zero value: the empty word.
    fn zero() -> (word: Self)
        ensures
            word@ == Seq::<char>::empty(),
    {
        Word::default()
    }
}

/// The digest of the zero value is the all-zero digest.
pub proof fn lemma_zero_word_digest()
    ensures
        word_digest(Seq::<char>::empty()) == zero_digest(),
{
}

/// Derives the key for the word with the given index: the leaf hash of the
/// index as four little-endian bytes.
pub fn index_key(index: u32) -> (key: [u8; 32])
    ensures
        key@ == index_key_spec(index),
{
    let bytes: [u8; 4] = [
        (index % 256) as u8,
        ((index / 256) % 256) as u8,
        ((index / 65536) % 256) as u8,
        (index / 16777216) as u8,
    ];
    hash_leaf(bytes.as_slice())
}

} // verus!
