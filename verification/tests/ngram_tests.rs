use textprep::ngram::{char_ngrams, token_ngrams, word_ngrams};

#[test]
fn char_ngrams_windows_characters() {
    assert_eq!(char_ngrams("abcd", 2), vec!["ab", "bc", "cd"]);
    assert_eq!(char_ngrams("東京都", 2), vec!["東京", "京都"]);
    assert_eq!(char_ngrams("abc", 3), vec!["abc"]);
}

#[test]
fn char_ngrams_of_short_text_are_empty() {
    assert!(char_ngrams("ab", 3).is_empty());
    assert!(char_ngrams("", 1).is_empty());
}

#[test]
fn word_ngrams_joins_with_single_spaces() {
    let ws = ["quick", "brown", "fox"];
    assert_eq!(word_ngrams(&ws, 2), vec!["quick brown", "brown fox"]);
    assert_eq!(word_ngrams(&ws, 1), vec!["quick", "brown", "fox"]);
    assert_eq!(word_ngrams(&ws, 3), vec!["quick brown fox"]);
    assert!(word_ngrams(&ws, 4).is_empty());
}

#[test]
fn token_ngrams_windows_tokens() {
    let ws = ["a", "b", "c"];
    assert_eq!(token_ngrams(&ws, 2), vec![vec!["a", "b"], vec!["b", "c"]]);
    assert_eq!(token_ngrams(&ws, 3), vec![vec!["a", "b", "c"]]);
}

#[test]
fn token_ngrams_handle_degenerate_sizes() {
    let ws = ["a", "b", "c"];
    assert!(token_ngrams(&ws, 0).is_empty());
    assert!(token_ngrams(&ws, 4).is_empty());
    let empty: [&str; 0] = [];
    assert!(token_ngrams(&empty, 1).is_empty());
}
