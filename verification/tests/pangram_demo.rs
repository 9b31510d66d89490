use word_smt::pangram::{construct_smt, insert_and_prove, pangram, prove_membership, prove_words};
use word_smt::tree::WordTree;
use word_smt::word::{index_key, Word};
use word_smt::words::split_whitespace;

#[test]
fn construct_smt_proves_all_nine_words() {
    assert!(construct_smt());
}

#[test]
fn pangram_has_nine_words() {
    assert_eq!(pangram(), "The quick brown fox jumps over the lazy dog");
    let words = split_whitespace(pangram());
    assert_eq!(words, vec!["The", "quick", "brown", "fox", "jumps", "over", "the", "lazy", "dog"]);
}

#[test]
fn prove_words_stores_each_word_under_its_index() {
    let mut tree = WordTree::new();
    let words = split_whitespace(pangram());
    assert!(prove_words(&mut tree, &words));
    for (i, word) in words.iter().enumerate() {
        assert_eq!(tree.get(&index_key(i as u32)).unwrap().as_str(), *word);
    }
    assert!(tree.get(&index_key(9)).unwrap().is_zero());
}

#[test]
fn prove_words_on_no_words_is_true() {
    let mut tree = WordTree::new();
    assert!(prove_words(&mut tree, &vec![]));
    assert_eq!(tree.root(), [0u8; 32]);
}

#[test]
fn corrupting_word_three_makes_the_aggregate_false() {
    let words = split_whitespace(pangram());
    let mut tree = WordTree::new();
    let mut result = true;
    let mut verdicts = Vec::new();
    for (i, text) in words.iter().enumerate() {
        let key = index_key(i as u32);
        let word = Word::new(text);
        tree.update(key, word).unwrap();
        if i == 3 {
            tree.update(key, Word::new("cat")).unwrap();
        }
        let proved = prove_membership(&tree, key, &word);
        verdicts.push(proved);
        result = result && proved;
    }
    assert!(!result);
    assert_eq!(verdicts, vec![true, true, true, false, true, true, true, true, true]);
}

#[test]
fn insert_and_prove_stores_and_proves() {
    let mut tree = WordTree::new();
    assert!(insert_and_prove(&mut tree, index_key(0), Word::new("The")));
    assert!(insert_and_prove(&mut tree, index_key(1), Word::new("quick")));
    assert_eq!(tree.get(&index_key(1)).unwrap().as_str(), "quick");
    assert!(prove_membership(&tree, index_key(0), &Word::new("The")));
    assert!(!prove_membership(&tree, index_key(0), &Word::new("quick")));
    assert!(!prove_membership(&tree, index_key(2), &Word::new("The")));
}

#[test]
fn absent_key_proves_the_zero_word() {
    let mut tree = WordTree::new();
    assert!(prove_membership(&tree, index_key(0), &Word::new("")));
    assert!(insert_and_prove(&mut tree, index_key(0), Word::new("")));
    assert_eq!(tree.root(), [0u8; 32]);
    tree.update(index_key(0), Word::new("The")).unwrap();
    assert!(prove_membership(&tree, index_key(5), &Word::new("")));
    assert!(!prove_membership(&tree, index_key(0), &Word::new("")));
}
