//! The tree of words: an in-memory sparse Merkle tree keyed by 256-bit
//! digests.

use crate::digest::{digests_view, distinct_digests, has_distinct_digests, zero_digest};
use crate::error::{classify, error_kind, tree_error, ErrorKind, TreeError};
use crate::hashing::Blake2bHasher;
use crate::merkle_proof::Proof;
use crate::word::{word_digest, Word};
use sparse_merkle_tree::default_store::DefaultStore;
use sparse_merkle_tree::error::Error;
use sparse_merkle_tree::{MerkleProof, SparseMerkleTree, H256};
use vstd::prelude::*;

verus! {

/// The tree crate's in-memory node store, carried through as an opaque
/// value.
#[verifier::external_type_specification]
#[verifier::external_body]
#[verifier::reject_recursive_types(V)]
pub struct ExDefaultStore<V>(DefaultStore<V>);

/// The tree crate's tree, carried through as an opaque value.
#[verifier::external_type_specification]
#[verifier::external_body]
#[verifier::reject_recursive_types(H)]
#[verifier::reject_recursive_types(V)]
#[verifier::reject_recursive_types(S)]
pub struct ExSparseMerkleTree<H, V, S>(SparseMerkleTree<H, V, S>);

/// A sparse Merkle tree of words over the in-memory store, hashing with
/// `Blake2bHasher`.
pub type Smt<'a> = SparseMerkleTree<Blake2bHasher, Word<'a>, DefaultStore<Word<'a>>>;

/// The stored words by key.
pub type Entries = Map<Seq<u8>, Seq<char>>;

/// The words a tree stores, by key.
pub uninterp spec fn tree_entries(tree: Smt<'static>) -> Map<Seq<u8>, Seq<char>>;

/// The root digest a tree holds.
pub uninterp spec fn tree_root(tree: Smt<'static>) -> Seq<u8>;

/// The tree that an update with the given key and word turns a tree into.
pub uninterp spec fn tree_after(tree: Smt<'static>, key: Seq<u8>, word: Seq<char>) -> Smt<'static>;

/// The proof a tree generates for a set of keys.
pub uninterp spec fn proof_for(tree: Smt<'static>, keys: Set<Seq<u8>>) -> MerkleProof;

/// The stored words after an update: a word whose digest is the all-zero
/// digest removes the key, any other word is stored under it.
pub open spec fn entries_after(entries: Entries, key: Seq<u8>, word: Seq<char>) -> Entries {
    if word_digest(word) == zero_digest() {
        entries.remove(key)
    } else {
        entries.insert(key, word)
    }
}

/// What a lookup returns: the empty word when the root is the all-zero
/// digest or nothing is stored under the key, otherwise the stored word.
pub open spec fn lookup(root: Seq<u8>, entries: Entries, key: Seq<u8>) -> Seq<char> {
    if root == zero_digest() || !entries.contains_key(key) {
        Seq::<char>::empty()
    } else {
        entries[key]
    }
}

/// Trusted: `SparseMerkleTree::default()` over the in-memory store is a tree
/// with nothing stored whose root is the all-zero digest.
#[verifier::external_body]
fn smt_new<'a>() -> (tree: Smt<'a>)
    ensures
        tree_entries(tree) == Entries::empty(),
        tree_root(tree) == zero_digest(),
{
    SparseMerkleTree::default()
}

/// Trusted: `SparseMerkleTree::root` hands out the root the tree holds.
#[verifier::external_body]
fn smt_root<'a>(tree: &Smt<'a>) -> (root: [u8; 32])
    ensures
        root@ == tree_root(*tree),
{
    <[u8; 32]>::from(*tree.root())
}

/// Trusted: `SparseMerkleTree::update` over the in-memory store. It first
/// stores the word under the key, or removes the key when the digest that
/// `Word::to_h256` gives for the word is all zero, then rebuilds the path
/// to the root and returns the new root. It fails only where the store
/// fails, which the in-memory store never does. The tree afterwards is a
/// function of the tree before, the key and the word.
#[verifier::external_body]
fn smt_update<'a>(tree: &mut Smt<'a>, key: [u8; 32], word: Word<'a>) -> (res: Result<[u8; 32], Error>)
    ensures
        res is Ok,
        res matches Ok(root) ==> root@ == tree_root(*final(tree)),
        *final(tree) == tree_after(*old(tree), key@, word@),
        tree_entries(*final(tree)) == entries_after(tree_entries(*old(tree)), key@, word@),
{
    tree.update(H256::from(key), word).map(|root| <[u8; 32]>::from(*root))
}

/// Trusted: `SparseMerkleTree::get` over the in-memory store returns the
/// zero word when the root is all zero, otherwise a copy of the word stored
/// under the key, or the zero word when there is none. It never fails on
/// the in-memory store.
#[verifier::external_body]
fn smt_get<'a>(tree: &Smt<'a>, key: &[u8; 32]) -> (res: Result<Word<'a>, Error>)
    ensures
        res is Ok,
        res matches Ok(word) ==> word@ == lookup(tree_root(*tree), tree_entries(*tree), key@),
{
    tree.get(&H256::from(*key))
}

/// Trusted: `SparseMerkleTree::merkle_proof` over the in-memory store. It
/// refuses an empty key list with `EmptyKeys` and fails in no other way.
/// It sorts the keys first, so the proof is a function of the tree and the
/// set of keys. Its bookkeeping can go wrong only when keys repeat.
#[verifier::external_body]
fn smt_merkle_proof<'a>(tree: &Smt<'a>, keys: &Vec<[u8; 32]>) -> (res: Result<MerkleProof, Error>)
    requires
        distinct_digests(keys@),
    ensures
        res is Ok <==> keys@.len() > 0,
        res matches Err(error) ==> error_kind(error) == ErrorKind::EmptyKeys,
        res matches Ok(proof) ==> proof == proof_for(*tree, digests_view(keys@).to_set()),
{
    tree.merkle_proof(keys.iter().map(|key| H256::from(*key)).collect())
}

/// A sparse Merkle tree that stores words under 256-bit keys and commits to
/// all of them in one root digest.
pub struct WordTree<'a> {
    inner: Smt<'a>,
}

impl<'a> WordTree<'a> {
    /// The words stored, by key.
    pub closed spec fn entries(&self) -> Entries {
        tree_entries(self.inner)
    }

    /// The root digest.
    pub closed spec fn root_digest(&self) -> Seq<u8> {
        tree_root(self.inner)
    }

    /// The tree after an update with the given key and word.
    pub closed spec fn after_update(&self, key: Seq<u8>, word: Seq<char>) -> Self {
        WordTree { inner: tree_after(self.inner, key, word) }
    }

    /// What this tree generates as a proof for a set of keys.
    pub closed spec fn proof_of(&self, keys: Set<Seq<u8>>) -> MerkleProof {
        proof_for(self.inner, keys)
    }

    /// The tree is as a new one: nothing is stored and the root is the
    /// all-zero digest.
    pub open spec fn is_fresh(&self) -> bool {
        self.entries() == Entries::empty() && self.root_digest() == zero_digest()
    }

    /// What a lookup of the key returns.
    pub open spec fn value_at(&self, key: Seq<u8>) -> Seq<char> {
        lookup(self.root_digest(), self.entries(), key)
    }

    /// Creates an empty tree. Its root is the all-zero digest.
    pub fn new() -> (tree: Self)
        ensures
            tree.is_fresh(),
    {
        WordTree { inner: smt_new() }
    }

    /// Returns the root digest.
    pub fn root(&self) -> (root: [u8; 32])
        ensures
            root@ == self.root_digest(),
    {
        smt_root(&self.inner)
    }

    /// Stores `word` under `key` and returns the new root. Storing the zero
    /// word deletes the key. The in-memory store cannot fail, so neither
    /// can the update.
    pub fn update(&mut self, key: [u8; 32], word: Word<'a>) -> (res: Result<[u8; 32], TreeError>)
        ensures
            res is Ok,
            res matches Ok(root) ==> root@ == final(self).root_digest(),
            *final(self) == old(self).after_update(key@, word@),
            final(self).entries() == entries_after(old(self).entries(), key@, word@),
            word@.len() == 0 ==> final(self).value_at(key@) == Seq::<char>::empty(),
    {
        match smt_update(&mut self.inner, key, word) {
            Ok(root) => Ok(root),
            Err(error) => Err(tree_error(classify(&error))),
        }
    }

    /// Looks up the word stored under `key`; the zero word if there is
    /// none.
    pub fn get(&self, key: &[u8; 32]) -> (res: Result<Word<'a>, TreeError>)
        ensures
            res is Ok,
            res matches Ok(word) ==> word@ == self.value_at(key@),
    {
        match smt_get(&self.inner, key) {
            Ok(word) => Ok(word),
            Err(error) => Err(tree_error(classify(&error))),
        }
    }

    /// Generates a proof for a set of keys against the current root. An
    /// empty key list, or one in which a key occurs twice, is a key
    /// mismatch.
    pub fn merkle_proof(&self, keys: Vec<[u8; 32]>) -> (res: Result<Proof, TreeError>)
        ensures
            res is Ok <==> keys@.len() > 0 && distinct_digests(keys@),
            res matches Err(error) ==> error == TreeError::KeyMismatch,
            res matches Ok(proof) ==> proof.key_list() == keys@,
            res matches Ok(proof) ==> proof.generated() == self.proof_of(
                digests_view(keys@).to_set(),
            ),
    {
        if !has_distinct_digests(&keys) {
            return Err(TreeError::KeyMismatch);
        }
        match smt_merkle_proof(&self.inner, &keys) {
            Ok(proof) => Ok(Proof::from_parts(proof, keys)),
            Err(error) => Err(tree_error(classify(&error))),
        }
    }
}

impl<'a> Default for WordTree<'a> {
    /// The empty tree.
    fn default() -> (tree: Self)
        ensures
            tree.is_fresh(),
    {
        WordTree::new()
    }
}

/// The stored words after a list of updates, applied first to last.
pub open spec fn entries_after_all(entries: Entries, updates: Seq<(Seq<u8>, Seq<char>)>) -> Entries
    decreases updates.len(),
{
    if updates.len() == 0 {
        entries
    } else {
        entries_after(
            entries_after_all(entries, updates.drop_last()),
            updates.last().0,
            updates.last().1,
        )
    }
}

/// No key is updated twice.
pub open spec fn distinct_update_keys(updates: Seq<(Seq<u8>, Seq<char>)>) -> bool {
    forall|i: int, j: int| 0 <= i < j < updates.len() ==> updates[i].0 != updates[j].0
}

/// Storing the zero word under a key deletes it: whatever the new root is,
/// a lookup of the key then returns the zero word, and the leaf digest at
/// the key is the all-zero digest.
pub proof fn lemma_delete_then_get(entries: Entries, root: Seq<u8>, key: Seq<u8>)
    ensures
        !entries_after(entries, key, Seq::<char>::empty()).contains_key(key),
        lookup(root, entries_after(entries, key, Seq::<char>::empty()), key) == Seq::<char>::empty(),
        word_digest(lookup(root, entries_after(entries, key, Seq::<char>::empty()), key))
            == zero_digest(),
{
}

/// After a word with a non-zero digest is stored, a lookup of its key in a
/// tree with a non-zero root returns that word, and a lookup of any other
/// key returns what it returned under the same root before.
pub proof fn lemma_update_then_get(
    entries: Entries,
    root: Seq<u8>,
    key: Seq<u8>,
    word: Seq<char>,
    other: Seq<u8>,
)
    requires
        root != zero_digest(),
        word_digest(word) != zero_digest(),
        other != key,
    ensures
        lookup(root, entries_after(entries, key, word), key) == word,
        lookup(root, entries_after(entries, key, word), other) == lookup(root, entries, other),
{
}

/// What a list of updates with distinct keys leaves under one key: the
/// effect of the one update of that key, if there is one, and what was
/// stored before otherwise.
proof fn lemma_entries_after_all_at(
    entries: Entries,
    updates: Seq<(Seq<u8>, Seq<char>)>,
    key: Seq<u8>,
)
    requires
        distinct_update_keys(updates),
    ensures
        forall|i: int|
            0 <= i < updates.len() && updates[i].0 == key ==> {
                let after = entries_after_all(entries, updates);
                &&& after.contains_key(key) == (word_digest(updates[i].1) != zero_digest())
                &&& after.contains_key(key) ==> after[key] == updates[i].1
            },
        (forall|i: int| 0 <= i < updates.len() ==> updates[i].0 != key) ==> {
            let after = entries_after_all(entries, updates);
            &&& after.contains_key(key) == entries.contains_key(key)
            &&& after.contains_key(key) ==> after[key] == entries[key]
        },
    decreases updates.len(),
{
    if updates.len() > 0 {
        let front = updates.drop_last();
        assert(distinct_update_keys(front)) by {
            assert forall|i: int, j: int| 0 <= i < j < front.len() implies front[i].0
                != front[j].0 by {
                assert(front[i] == updates[i]);
                assert(front[j] == updates[j]);
            }
        }
        lemma_entries_after_all_at(entries, front, key);
        let last = updates.len() - 1;
        assert forall|i: int| 0 <= i < updates.len() && updates[i].0 == key implies {
            let after = entries_after_all(entries, updates);
            &&& after.contains_key(key) == (word_digest(updates[i].1) != zero_digest())
            &&& after.contains_key(key) ==> after[key] == updates[i].1
        } by {
            if i < last {
                assert(front[i] == updates[i]);
                assert(updates[i].0 != updates[last].0);
            }
        }
        if forall|i: int| 0 <= i < updates.len() ==> updates[i].0 != key {
            assert forall|i: int| 0 <= i < front.len() implies front[i].0 != key by {
                assert(front[i] == updates[i]);
            }
            assert(updates[last].0 != key);
        }
    }
}

/// A permutation of a list of updates with distinct keys has distinct keys
/// too.
proof fn lemma_permutation_keeps_keys_distinct(
    first: Seq<(Seq<u8>, Seq<char>)>,
    second: Seq<(Seq<u8>, Seq<char>)>,
)
    requires
        distinct_update_keys(first),
        first.to_multiset() == second.to_multiset(),
    ensures
        distinct_update_keys(second),
{
    first.to_multiset_ensures();
    second.to_multiset_ensures();
    assert(first.no_duplicates());
    first.lemma_multiset_has_no_duplicates();
    second.lemma_multiset_has_no_duplicates_conv();
    assert forall|i: int, j: int| 0 <= i < j < second.len() implies second[i].0 != second[j].0 by {
        assert(second[i] != second[j]);
        assert(second.contains(second[i]));
        assert(second.contains(second[j]));
        assert(second.to_multiset().count(second[i]) > 0);
        assert(second.to_multiset().count(second[j]) > 0);
        assert(first.contains(second[i]));
        assert(first.contains(second[j]));
        let p = choose|p: int| 0 <= p < first.len() && first[p] == second[i];
        let q = choose|q: int| 0 <= q < first.len() && first[q] == second[j];
        assert(p != q);
    }
}

/// The stored words do not depend on the order of updates: a list of
/// updates with distinct keys and any permutation of it leave the same
/// words stored.
pub proof fn lemma_entries_order_independent(
    entries: Entries,
    first: Seq<(Seq<u8>, Seq<char>)>,
    second: Seq<(Seq<u8>, Seq<char>)>,
)
    requires
        distinct_update_keys(first),
        first.to_multiset() == second.to_multiset(),
    ensures
        entries_after_all(entries, first) == entries_after_all(entries, second),
{
    lemma_permutation_keeps_keys_distinct(first, second);
    let a = entries_after_all(entries, first);
    let b = entries_after_all(entries, second);
    first.to_multiset_ensures();
    second.to_multiset_ensures();
    assert forall|key: Seq<u8>|
        #![trigger a.dom().contains(key)]
        #![trigger b.dom().contains(key)]
        a.dom().contains(key) == b.dom().contains(key) && (a.dom().contains(key) ==> a[key]
            == b[key]) by {
        lemma_entries_after_all_at(entries, first, key);
        lemma_entries_after_all_at(entries, second, key);
        if exists|i: int| 0 <= i < first.len() && first[i].0 == key {
            let i = choose|i: int| 0 <= i < first.len() && first[i].0 == key;
            assert(first.contains(first[i]));
            assert(first.to_multiset().count(first[i]) > 0);
            assert(second.to_multiset().count(first[i]) > 0);
            assert(second.contains(first[i]));
            let j = choose|j: int| 0 <= j < second.len() && second[j] == first[i];
            assert(second[j].0 == key);
        } else {
            if exists|j: int| 0 <= j < second.len() && second[j].0 == key {
                let j = choose|j: int| 0 <= j < second.len() && second[j].0 == key;
                assert(second.contains(second[j]));
                assert(second.to_multiset().count(second[j]) > 0);
                assert(first.to_multiset().count(second[j]) > 0);
                assert(first.contains(second[j]));
                let i = choose|i: int| 0 <= i < first.len() && first[i] == second[j];
                assert(first[i].0 == key);
            }
        }
    }
    assert(a =~= b);
}

} // verus!
