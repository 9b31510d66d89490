use sparse_merkle_tree::traits::{Hasher, Value};
use sparse_merkle_tree::H256;
use word_smt::digest::{is_zero, same_digest, zero, DIGEST_LEN};
use word_smt::hashing::{hash_leaf, Blake2bHasher};
use word_smt::word::{index_key, Word};

fn hex(text: &str) -> [u8; 32] {
    assert_eq!(text.len(), 64);
    let mut out = [0u8; 32];
    for (i, byte) in out.iter_mut().enumerate() {
        *byte = u8::from_str_radix(&text[2 * i..2 * i + 2], 16).unwrap();
    }
    out
}

#[test]
fn zero_digest_is_thirty_two_zero_bytes() {
    assert_eq!(DIGEST_LEN, 32);
    assert_eq!(zero(), [0u8; 32]);
    assert!(is_zero(&zero()));
    let mut other = [0u8; 32];
    other[31] = 1;
    assert!(!is_zero(&other));
}

#[test]
fn same_digest_compares_every_byte() {
    let a = hex("6dc2361356e0332ad790cccdcb9c7bf15a9ac8d36b1e70231d80e0a3f0fea269");
    for position in 0..32 {
        let mut b = a;
        assert!(same_digest(&a, &b));
        b[position] ^= 0x80;
        assert!(!same_digest(&a, &b));
        assert!(!same_digest(&b, &a));
    }
}

#[test]
fn hash_leaf_matches_known_digests() {
    assert_eq!(hash_leaf(b"The"), hex("6dc2361356e0332ad790cccdcb9c7bf15a9ac8d36b1e70231d80e0a3f0fea269"));
    assert_eq!(hash_leaf(b""), hex("b142eebf5774695898ee8ee41930f0b39864da9315fdc0c07e2d94fd44dedeed"));
}

#[test]
fn hash_leaf_is_not_the_identity() {
    let data = [7u8; 32];
    assert_ne!(hash_leaf(&data), data);
    assert_ne!(hash_leaf(&data), hash_leaf(&[8u8; 32]));
}

#[test]
fn index_key_hashes_little_endian_index() {
    assert_eq!(index_key(0), hex("5cdd02a6f04efe2e485ec10c44baf5395972a44b3791fd6675a3142e51a05143"));
    assert_eq!(index_key(0), hash_leaf(&[0, 0, 0, 0]));
    assert_eq!(index_key(258), hex("cc463673f08f27872b1b5401d1ee69289bc0de7e927a628b3a7c159395ca7efa"));
    assert_eq!(index_key(258), hash_leaf(&[2, 1, 0, 0]));
    assert_eq!(index_key(0x0403_0201), hash_leaf(&[1, 2, 3, 4]));
    assert_eq!(index_key(u32::MAX), hash_leaf(&[255, 255, 255, 255]));
}

#[test]
fn word_digest_is_leaf_hash_of_its_bytes() {
    assert_eq!(Word::new("The").to_digest(), hex("6dc2361356e0332ad790cccdcb9c7bf15a9ac8d36b1e70231d80e0a3f0fea269"));
    assert_eq!(Word::new("The").to_digest(), hash_leaf(b"The"));
    let umlaut = "gr\u{fc}n";
    assert_eq!(Word::new(umlaut).to_digest(), hash_leaf(&[0x67, 0x72, 0xc3, 0xbc, 0x6e]));
    assert_eq!(Word::new("The").as_str(), "The");
}

#[test]
fn zero_word_has_zero_digest() {
    let nothing: Word = Word::zero();
    assert!(nothing.is_zero());
    assert_eq!(nothing.as_str(), "");
    assert_eq!(nothing.to_digest(), [0u8; 32]);
    assert_eq!(Word::default().to_digest(), [0u8; 32]);
    assert_eq!(Word::new("").to_digest(), [0u8; 32]);
    assert_ne!(Word::new("").to_digest(), hash_leaf(b""));
    assert!(!Word::new(" ").is_zero());
}

#[test]
fn word_to_h256_wraps_the_digest() {
    let word = Word::new("quick");
    let wrapped: H256 = word.to_h256();
    assert_eq!(<[u8; 32]>::from(wrapped), word.to_digest());
    assert_eq!(<[u8; 32]>::from(wrapped), hex("0af25cc573ed9ecfeda7ad0f4965c8b6449cdc1c23cb62db08c2796d6208784a"));
    assert_eq!(Word::new("").to_h256(), H256::zero());
}

#[test]
fn node_hasher_matches_known_digests() {
    let empty = Blake2bHasher::default().finish();
    assert_eq!(<[u8; 32]>::from(empty), hex("564c7100b6fd6ba1faa5e658ddee747d41f70c2979b76bf03801c5685b31edfc"));
    let mut hasher = Blake2bHasher::default();
    hasher.write_byte(1);
    hasher.write_h256(&H256::from([7u8; 32]));
    assert_eq!(<[u8; 32]>::from(hasher.finish()), hex("f4eabc824f3e7619c0d5208082412368b6f620b45e9458da8d28213a9774b10f"));
}

#[test]
fn node_hasher_is_sensitive_to_order() {
    let a = H256::from([1u8; 32]);
    let b = H256::from([2u8; 32]);
    let mut first = Blake2bHasher::default();
    first.write_h256(&a);
    first.write_h256(&b);
    let mut second = Blake2bHasher::default();
    second.write_h256(&b);
    second.write_h256(&a);
    assert_ne!(first.finish(), second.finish());
}

#[test]
fn node_hasher_streams_bytes_in_order() {
    let mut bytewise = Blake2bHasher::default();
    for _ in 0..32 {
        bytewise.write_byte(9);
    }
    let mut at_once = Blake2bHasher::default();
    at_once.write_h256(&H256::from([9u8; 32]));
    assert_eq!(bytewise.finish(), at_once.finish());
}

#[test]
fn node_hasher_differs_from_leaf_hash() {
    let mut hasher = Blake2bHasher::default();
    hasher.write_h256(&H256::from([5u8; 32]));
    assert_ne!(<[u8; 32]>::from(hasher.finish()), hash_leaf(&[5u8; 32]));
}
