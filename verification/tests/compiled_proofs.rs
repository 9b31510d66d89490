use word_smt::error::TreeError;
use word_smt::tree::WordTree;
use word_smt::word::{index_key, Word};

const WORDS: [&str; 9] = ["The", "quick", "brown", "fox", "jumps", "over", "the", "lazy", "dog"];

fn tree_of(count: usize) -> WordTree<'static> {
    let mut tree = WordTree::new();
    for (i, word) in WORDS.iter().enumerate().take(count) {
        tree.update(index_key(i as u32), Word::new(word)).unwrap();
    }
    tree
}

fn entry(i: usize) -> ([u8; 32], [u8; 32]) {
    (index_key(i as u32), Word::new(WORDS[i]).to_digest())
}

#[test]
fn compiled_proof_verifies_like_the_proof() {
    let tree = tree_of(9);
    let root = tree.root();
    for i in 0..9 {
        let compiled = tree.merkle_proof(vec![index_key(i as u32)]).unwrap().compile().unwrap();
        assert_eq!(compiled.verify(&root, vec![entry(i)]), Ok(true));
        assert_eq!(compiled.compute_root(vec![entry(i)]), Ok(root));
        let wrong = (index_key(i as u32), Word::new("cat").to_digest());
        assert_eq!(compiled.verify(&root, vec![wrong]), Ok(false));
        let direct = tree.merkle_proof(vec![index_key(i as u32)]).unwrap();
        assert_eq!(direct.compute_root(vec![wrong]), compiled.compute_root(vec![wrong]));
    }
}

#[test]
fn compiled_proof_replays_against_many_roots() {
    let tree = tree_of(9);
    let compiled = tree.merkle_proof(vec![index_key(2), index_key(7)]).unwrap().compile().unwrap();
    let entries = vec![entry(7), entry(2)];
    assert_eq!(compiled.verify(&tree.root(), entries.clone()), Ok(true));
    for count in 0..9 {
        let older = tree_of(count).root();
        assert_eq!(compiled.verify(&older, entries.clone()), Ok(false));
    }
    assert_eq!(compiled.verify(&tree.root(), entries), Ok(true));
}

#[test]
fn compiled_proof_keeps_keys_and_program() {
    let tree = tree_of(9);
    let keys = vec![index_key(5), index_key(1)];
    let compiled = tree.merkle_proof(keys.clone()).unwrap().compile().unwrap();
    assert_eq!(compiled.keys(), &keys);
    let program = compiled.program();
    assert!(!program.is_empty());
    assert_eq!(program[0], 0x4c);
    let again = tree.merkle_proof(vec![index_key(1), index_key(5)]).unwrap().compile().unwrap();
    assert_eq!(again.program(), program);
    let other = tree.merkle_proof(vec![index_key(1), index_key(6)]).unwrap().compile().unwrap();
    assert_ne!(other.program(), program);
}

#[test]
fn compiled_proof_rejects_other_keys() {
    let tree = tree_of(9);
    let root = tree.root();
    let compiled = tree.merkle_proof(vec![index_key(2), index_key(7)]).unwrap().compile().unwrap();
    assert!(compiled.fits_entries(&vec![entry(2), entry(7)]));
    assert!(!compiled.fits_entries(&vec![entry(2)]));
    assert_eq!(compiled.verify(&root, vec![entry(2)]), Err(TreeError::KeyMismatch));
    assert_eq!(compiled.verify(&root, vec![entry(2), entry(3)]), Err(TreeError::KeyMismatch));
    assert_eq!(compiled.verify(&root, vec![entry(2), entry(2)]), Err(TreeError::KeyMismatch));
    assert_eq!(compiled.verify(&root, vec![]), Err(TreeError::KeyMismatch));
    assert_eq!(compiled.compute_root(vec![entry(7)]), Err(TreeError::KeyMismatch));
}

#[test]
fn compiled_proof_of_an_empty_tree_proves_absence() {
    let tree = WordTree::new();
    let compiled = tree.merkle_proof(vec![index_key(0)]).unwrap().compile().unwrap();
    assert_eq!(compiled.verify(&[0u8; 32], vec![(index_key(0), [0u8; 32])]), Ok(true));
    assert_eq!(compiled.verify(&[0u8; 32], vec![entry(0)]), Ok(false));
    assert_eq!(compiled.compute_root(vec![entry(0)]), Ok(tree_of(1).root()));
}
