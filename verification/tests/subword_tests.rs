use std::collections::HashMap;
use textprep::{BpeTokenizer, SubwordTokenizer};

#[test]
fn vocab_lookup_returns_ids_of_known_words_in_order() {
    let mut vocab = HashMap::new();
    vocab.insert("hello".to_string(), 1u32);
    vocab.insert("world".to_string(), 2u32);
    let tok = BpeTokenizer::from_vocab(vocab);
    assert_eq!(tok.tokenize("hello unknown world hello"), vec![1, 2, 1]);
}

#[test]
fn vocab_lookup_of_blank_text_is_empty() {
    let tok = BpeTokenizer::from_vocab(HashMap::new());
    assert!(tok.tokenize("").is_empty());
    assert!(tok.tokenize("  \t ").is_empty());
}
