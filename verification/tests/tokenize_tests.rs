use textprep::tokenize::{sentences, tokenize_with_offsets, words};
use textprep::Token;

fn slice_by_char_range(text: &str, start: usize, end: usize) -> String {
    text.chars().skip(start).take(end.saturating_sub(start)).collect()
}

#[test]
fn words_splits_on_unicode_boundaries() {
    assert_eq!(words("Hello, world! Müller"), vec!["Hello", "world", "Müller"]);
    assert!(words("").is_empty());
}

#[test]
fn sentences_splits_on_unicode_boundaries() {
    assert_eq!(sentences("One. Two!"), vec!["One. ", "Two!"]);
}

#[test]
fn tokenize_with_offsets_reports_char_offsets() {
    let text = "aé b 東京";
    let tokens = tokenize_with_offsets(text);
    assert_eq!(
        tokens,
        vec![
            Token { text: "aé".to_string(), start: 0, end: 2 },
            Token { text: "b".to_string(), start: 3, end: 4 },
            Token { text: "東".to_string(), start: 5, end: 6 },
            Token { text: "京".to_string(), start: 6, end: 7 },
        ]
    );
}

#[test]
fn tokenize_with_offsets_spans_are_valid_on_samples() {
    for text in ["", "  ", "Hello, world! Müller 東京", "a\u{2028}b"] {
        let tokens = tokenize_with_offsets(text);
        let char_count = text.chars().count();
        let mut last_end = 0usize;
        for t in &tokens {
            assert!(t.start <= t.end);
            assert!(t.end <= char_count);
            assert!(!t.text.is_empty());
            assert!(last_end <= t.start);
            assert_eq!(slice_by_char_range(text, t.start, t.end), t.text);
            last_end = t.end;
        }
    }
}

#[test]
fn token_texts_equal_the_word_segmentation() {
    for text in ["Hello, world! Müller 東京", "", "a-b c_d 1.5"] {
        let tokens = tokenize_with_offsets(text);
        let texts: Vec<&str> = tokens.iter().map(|t| t.text.as_str()).collect();
        assert_eq!(texts, words(text));
    }
}
