//! Building a tree from the words of a text and proving each word right
//! after it is stored.

use crate::digest::digests_view;
use crate::error::ErrorKind;
use crate::merkle_proof::{computed_root, entries_view, pair_keys};
use crate::tree::WordTree;
use crate::word::{index_key, index_key_spec, word_digest, Word};
use crate::words::{split_whitespace, words_of, words_view};
use vstd::prelude::*;

verus! {

/// The tree proves that `word` is stored under `key`: the proof it
/// generates for that key alone recomputes, from the word's digest, the
/// root the tree holds.
pub open spec fn membership_holds(tree: WordTree, key: Seq<u8>, word: Seq<char>) -> bool {
    computed_root(tree.proof_of(set![key]), seq![(key, word_digest(word))]) == Ok::<
        Seq<u8>,
        ErrorKind,
    >(tree.root_digest())
}

/// The index a position in the word list is hashed as: the position
/// reduced to 32 bits.
pub open spec fn index_of(position: nat) -> u32 {
    (position % 0x1_0000_0000) as u32
}

/// The index of the next position is the next index, wrapping to zero
/// after the largest one.
pub proof fn lemma_index_of_next(position: nat)
    ensures
        index_of(position + 1) == if index_of(position) == u32::MAX {
            0u32
        } else {
            (index_of(position) + 1) as u32
        },
{
    let modulus: int = 0x1_0000_0000;
    let p = position as int;
    assert(p == modulus * (p / modulus) + p % modulus) by (nonlinear_arith)
        requires
            modulus == 0x1_0000_0000,
    ;
    if p % modulus == modulus - 1 {
        assert((p + 1) % modulus == 0) by (nonlinear_arith)
            requires
                modulus == 0x1_0000_0000,
                p % modulus == modulus - 1,
                p >= 0,
        ;
    } else {
        assert((p + 1) % modulus == p % modulus + 1) by (nonlinear_arith)
            requires
                modulus == 0x1_0000_0000,
                0 <= p % modulus < modulus - 1,
                p >= 0,
        ;
    }
}

/// The key of the word at a position.
pub open spec fn key_at(position: nat) -> Seq<u8> {
    index_key_spec(index_of(position))
}

/// The tree after the first `count` words have been stored, each under the
/// key of its position.
pub open spec fn tree_after_words(tree: WordTree, words: Seq<Seq<char>>, count: nat) -> WordTree
    decreases count,
{
    if count == 0 {
        tree
    } else {
        tree_after_words(tree, words, (count - 1) as nat).after_update(
            key_at((count - 1) as nat),
            words[count - 1],
        )
    }
}

/// Each of the first `count` words was proved by the tree right after it
/// was stored.
pub open spec fn all_proved(tree: WordTree, words: Seq<Seq<char>>, count: nat) -> bool
    decreases count,
{
    if count == 0 {
        true
    } else {
        &&& all_proved(tree, words, (count - 1) as nat)
        &&& membership_holds(
            tree_after_words(tree, words, count),
            key_at((count - 1) as nat),
            words[count - 1],
        )
    }
}

/// Generates a proof for `key` alone against the current root and verifies
/// that it commits to the digest of `word`. Anything but a successful
/// verification counts as `false`.
pub fn prove_membership(tree: &WordTree, key: [u8; 32], word: &Word) -> (proved: bool)
    ensures
        proved == membership_holds(*tree, key@, word@),
{
    let mut keys: Vec<[u8; 32]> = Vec::new();
    keys.push(key);
    assert(digests_view(keys@).to_set() =~= set![key@]) by {
        let view = digests_view(keys@);
        assert forall|k: Seq<u8>| view.to_set().contains(k) <==> k == key@ by {
            if k == key@ {
                assert(view.contains(view[0]));
            }
        }
    }
    match tree.merkle_proof(keys) {
        Ok(proof) => {
            let mut entries: Vec<([u8; 32], [u8; 32])> = Vec::new();
            let digest = word.to_digest();
            entries.push((key, digest));
            assert(entries_view(entries@) =~= seq![(key@, digest@)]);
            assert(pair_keys(entries_view(entries@)) =~= digests_view(seq![key]));
            let root = tree.root();
            match proof.verify(&root, entries) {
                Ok(accepted) => accepted,
                Err(_) => false,
            }
        },
        Err(_) => false,
    }
}

/// Stores `word` under `key`, then proves it against the new root.
pub fn insert_and_prove<'a>(tree: &mut WordTree<'a>, key: [u8; 32], word: Word<'a>) -> (proved: bool)
    ensures
        *final(tree) == old(tree).after_update(key@, word@),
        proved == membership_holds(*final(tree), key@, word@),
{
    match tree.update(key, word) {
        Ok(_) => prove_membership(tree, key, &word),
        Err(_) => false,
    }
}

/// Stores every word under the key of its position, proving each one right
/// after it is stored. Returns `true` exactly when every proof verified.
/// All words are stored even after a proof has failed.
pub fn prove_words<'a>(tree: &mut WordTree<'a>, words: &Vec<&'a str>) -> (proved: bool)
    ensures
        *final(tree) == tree_after_words(*old(tree), words_view(words@), words@.len()),
        proved == all_proved(*old(tree), words_view(words@), words@.len()),
{
    let ghost start = *tree;
    let ghost texts = words_view(words@);
    let mut proved = true;
    let mut index: u32 = 0;
    let mut position: usize = 0;
    while position < words.len()
        invariant
            position <= words@.len(),
            texts == words_view(words@),
            index == index_of(position as nat),
            *tree == tree_after_words(start, texts, position as nat),
            proved == all_proved(start, texts, position as nat),
        decreases words@.len() - position,
    {
        let key = index_key(index);
        let word = Word::new(words[position]);
        let ghost before = *tree;
        let this_proved = insert_and_prove(tree, key, word);
        proof {
            lemma_index_of_next(position as nat);
            assert(tree_after_words(start, texts, (position + 1) as nat) == before.after_update(
                key_at(position as nat),
                texts[position as int],
            ));
            assert(all_proved(start, texts, (position + 1) as nat) == (all_proved(
                start,
                texts,
                position as nat,
            ) && membership_holds(
                tree_after_words(start, texts, (position + 1) as nat),
                key_at(position as nat),
                texts[position as int],
            )));
        }
        proved = proved && this_proved;
        index = if index == u32::MAX {
            0
        } else {
            index + 1
        };
        position += 1;
    }
    proved
}

/// The words of the pangram.
pub open spec fn pangram_words() -> Seq<Seq<char>> {
    words_of("The quick brown fox jumps over the lazy dog"@)
}

/// Starting from `tree`, every word of the pangram was proved right after
/// it was stored.
pub open spec fn pangram_proved(tree: WordTree) -> bool {
    all_proved(tree, pangram_words(), pangram_words().len())
}

/// The text whose words the demonstration stores.
pub fn pangram() -> (text: &'static str)
    ensures
        words_of(text@) == pangram_words(),
{
    "The quick brown fox jumps over the lazy dog"
}

/// Builds a tree from the words of the pangram, proving each word right
/// after it is stored, and tells whether every proof verified. The tree it
/// starts from is some empty tree.
pub fn construct_smt() -> (result: bool)
    ensures
        exists|tree: WordTree<'static>| tree.is_fresh() && result == #[trigger] pangram_proved(tree),
{
    let mut tree = WordTree::new();
    let ghost fresh = tree;
    let words = split_whitespace(pangram());
    let result = prove_words(&mut tree, &words);
    assert(fresh.is_fresh() && result == pangram_proved(fresh));
    result
}

} // verus!
