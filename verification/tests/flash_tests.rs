use textprep::{FlashText, KeywordMatch};

fn slice_by_char_range(text: &str, start: usize, end: usize) -> String {
    text.chars().skip(start).take(end.saturating_sub(start)).collect()
}

#[test]
fn test_find_char_offsets_are_correct_for_unicode() {
    let mut ft = FlashText::new();
    ft.add_keyword("東京", "tokyo");
    ft.add_keyword("Müller", "muller");

    // Mixed ASCII + multibyte.
    let text = "a 東京 b Müller c";
    let matches = ft.find(text);

    // Char offsets in `text`:
    // 0 a
    // 1 ' '
    // 2 東
    // 3 京
    // 4 ' '
    // 5 b
    // 6 ' '
    // 7 M
    // 8 ü
    // 9 l
    // 10 l
    // 11 e
    // 12 r
    // 13 ' '
    // 14 c
    assert_eq!(
        matches,
        vec![
            KeywordMatch {
                keyword: "東京".to_string(),
                value: "tokyo".to_string(),
                start: 2,
                end: 4
            },
            KeywordMatch {
                keyword: "Müller".to_string(),
                value: "muller".to_string(),
                start: 7,
                end: 13
            }
        ]
    );
}

#[test]
fn find_reports_registered_payloads_in_order() {
    let mut ft = FlashText::new();
    ft.add_keyword("François", "francois");
    ft.add_keyword("Müller", "muller");
    ft.add_keyword("北京", "beijing");

    let matches = ft.find("a 北京 b Müller c");
    assert_eq!(matches.len(), 2);
    assert_eq!(matches[0].keyword, "北京");
    assert_eq!(matches[0].value, "beijing");
    assert_eq!((matches[0].start, matches[0].end), (2, 4));
    assert_eq!(matches[1].keyword, "Müller");
    assert_eq!(matches[1].value, "muller");
    assert_eq!((matches[1].start, matches[1].end), (7, 13));
}

#[test]
fn find_into_matches_find() {
    let mut ft = FlashText::new();
    ft.add_keyword("hello", "hello");
    ft.add_keyword("东", "east");

    let text = "say HeLLo to 东 twice: hello 东";
    let found = ft.find(text);
    let mut buffer = Vec::new();
    ft.find_into(text, &mut buffer);
    assert_eq!(found, buffer);

    // The buffer is cleared before reuse.
    ft.find_into("nothing here", &mut buffer);
    assert!(buffer.is_empty());
}

#[test]
fn matching_is_ascii_case_insensitive() {
    let mut ft = FlashText::new();
    ft.add_keyword("hello", "greeting");
    let matches = ft.find("Say HeLLo!");
    assert_eq!(matches.len(), 1);
    assert_eq!(matches[0].keyword, "hello");
    assert_eq!(matches[0].value, "greeting");
    assert_eq!((matches[0].start, matches[0].end), (4, 9));
    assert_eq!(
        slice_by_char_range("Say HeLLo!", 4, 9).to_ascii_lowercase(),
        "hello"
    );
}

#[test]
fn longest_match_wins_at_same_start() {
    let mut ft = FlashText::new();
    ft.add_keyword("app", "short");
    ft.add_keyword("appendage", "long");
    ft.add_keyword("append", "mid");

    let matches = ft.find("append the app to the appendage");
    let reported: Vec<(&str, usize, usize)> = matches
        .iter()
        .map(|m| (m.keyword.as_str(), m.start, m.end))
        .collect();
    assert_eq!(
        reported,
        vec![("append", 0, 6), ("app", 11, 14), ("appendage", 22, 31)]
    );
}

#[test]
fn matches_are_sorted_and_non_overlapping() {
    let mut ft = FlashText::new();
    ft.add_keyword("aa", "x");
    ft.add_keyword("aaa", "y");
    let text = "aaaa aé aa";
    let matches = ft.find(text);
    let char_count = text.chars().count();
    let mut last_end = 0usize;
    for m in &matches {
        assert!(m.start <= m.end);
        assert!(m.end <= char_count);
        assert!(last_end <= m.start);
        assert_eq!(
            slice_by_char_range(text, m.start, m.end).to_ascii_lowercase(),
            m.keyword.to_ascii_lowercase()
        );
        last_end = m.end;
    }
}

#[test]
fn add_keyword_overwrites_payload_for_identical_pattern() {
    let mut ft = FlashText::new();
    ft.add_keyword("key", "first");
    ft.add_keyword("key", "second");
    let matches = ft.find("the key here");
    assert_eq!(matches.len(), 1);
    assert_eq!(matches[0].value, "second");
}

#[test]
fn empty_matcher_finds_nothing() {
    let mut ft = FlashText::default();
    assert!(ft.find("anything at all").is_empty());
}
