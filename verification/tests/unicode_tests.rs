use textprep::unicode::{
    bidi_controls_with_offsets, collapse_whitespace, collapse_whitespace_into,
    contains_bidi_controls, contains_zero_width, nfc, nfd, nfkc, nfkd, normalize_newlines,
    normalize_newlines_into, remove_bidi_controls, remove_bidi_controls_into, remove_zero_width,
    remove_zero_width_into, trim_lines_preserve_spaces, zero_width_with_offsets,
};

#[test]
fn test_nfc() {
    let decomposed = "a\u{0308}";
    let normalized = nfc(decomposed);
    assert_eq!(normalized, "ä");
}

#[test]
fn nfd_decomposes_precomposed() {
    assert_eq!(nfd("ä"), "a\u{0308}");
}

#[test]
fn nfkc_folds_compatibility_characters() {
    assert_eq!(nfkc("ﬁn"), "fin");
}

#[test]
fn nfkd_decomposes_compatibility_characters() {
    assert_eq!(nfkd("ﬁn ä"), "fin a\u{0308}");
}

#[test]
fn test_normalize_newlines() {
    let text = "Line 1\r\nLine 2\rLine 3\nLine 4";
    let normalized = normalize_newlines(text);
    assert!(!normalized.contains("\r\n"));
    assert!(!normalized.contains('\r'));
    assert!(normalized.contains('\n'));
}

#[test]
fn test_normalize_newlines_into_matches() {
    let text = "Line 1\r\nLine 2\rLine 3\nLine 4";
    let expected = normalize_newlines(text);
    let mut out = String::new();
    normalize_newlines_into(text, &mut out);
    assert_eq!(out, expected);
}

#[test]
fn normalize_newlines_exact_value() {
    assert_eq!(normalize_newlines("a\r\nb\rc\nd\r"), "a\nb\nc\nd\n");
}

#[test]
fn normalize_newlines_is_idempotent_on_sample() {
    let text = "one\r\ntwo\rthree\n\rfour";
    let once = normalize_newlines(text);
    let twice = normalize_newlines(&once);
    assert_eq!(once, twice);
}

#[test]
fn test_trim_lines_preserve_spaces() {
    // Mixed scripts + diacritics + extra whitespace.
    let text = "  Hello   World  \r\n\r\n  東京  \n\n  Müller  ";
    let out = trim_lines_preserve_spaces(text);
    assert_eq!(out, "Hello   World\n東京\nMüller");
}

#[test]
fn trim_lines_of_blank_input_is_empty() {
    assert_eq!(trim_lines_preserve_spaces(""), "");
    assert_eq!(trim_lines_preserve_spaces(" \r\n \n\t"), "");
}

#[test]
fn test_remove_zero_width() {
    let text = "a\u{200b}b\u{200c}c\u{200d}d\u{2060}e\u{feff}f";
    assert!(contains_zero_width(text));
    assert_eq!(
        zero_width_with_offsets(text),
        vec![
            (1, '\u{200B}'),
            (3, '\u{200C}'),
            (5, '\u{200D}'),
            (7, '\u{2060}'),
            (9, '\u{FEFF}')
        ]
    );
    assert_eq!(remove_zero_width(text), "abcdef");
    assert!(!contains_zero_width(&remove_zero_width(text)));

    let mut out = String::new();
    remove_zero_width_into(text, &mut out);
    assert_eq!(out, "abcdef");
}

#[test]
fn zero_width_removal_accounts_for_every_character() {
    let text = "a\u{200b}b\u{200c}c\u{200d}d\u{2060}e\u{feff}f";
    let removed = remove_zero_width(text);
    let hits = zero_width_with_offsets(text);
    assert_eq!(
        removed.chars().count() + hits.len(),
        text.chars().count()
    );
    let twice = remove_zero_width(&removed);
    assert_eq!(removed, twice);
}

#[test]
fn test_remove_bidi_controls() {
    // Mix embeddings/overrides + isolates + marks.
    let text = "a\u{202e}\u{2066}b\u{2069}\u{202c}\u{200f}c";
    assert!(contains_bidi_controls(text));
    assert_eq!(
        bidi_controls_with_offsets(text),
        vec![
            (1, '\u{202E}'),
            (2, '\u{2066}'),
            (4, '\u{2069}'),
            (5, '\u{202C}'),
            (6, '\u{200F}')
        ]
    );
    assert_eq!(remove_bidi_controls(text), "abc");
    assert!(!contains_bidi_controls(&remove_bidi_controls(text)));

    let mut out = String::new();
    remove_bidi_controls_into(text, &mut out);
    assert_eq!(out, "abc");
}

#[test]
fn test_remove_bidi_controls_includes_alm() {
    let text = "a\u{061c}b";
    assert!(contains_bidi_controls(text));
    assert_eq!(bidi_controls_with_offsets(text), vec![(1, '\u{061C}')]);
    assert_eq!(remove_bidi_controls(text), "ab");
}

#[test]
fn bidi_removal_accounts_for_every_character() {
    let text = "a\u{202a}b\u{202b}c\u{202d}\u{2067}\u{2068}\u{200e}d";
    let removed = remove_bidi_controls(text);
    let hits = bidi_controls_with_offsets(text);
    assert_eq!(
        removed.chars().count() + hits.len(),
        text.chars().count()
    );
    assert_eq!(removed, "abcd");
}

#[test]
fn test_collapse_whitespace() {
    let text = "  hello\tworld \n  東京  \r\n  Müller  ";
    let collapsed = collapse_whitespace(text);
    assert_eq!(collapsed, "hello world 東京 Müller");
}

#[test]
fn test_collapse_whitespace_into_matches() {
    let text = "  hello\tworld \n  東京  \r\n  Müller  ";
    let expected = collapse_whitespace(text);
    let mut out = String::new();
    collapse_whitespace_into(text, &mut out);
    assert_eq!(out, expected);
}

#[test]
fn collapse_whitespace_handles_mixed_scripts_and_crlf() {
    let text = "  François  Müller\tmet  习近平  in  北京.\r\nThen   they  said:  🎉🎊  ";
    assert_eq!(
        collapse_whitespace(text),
        "François Müller met 习近平 in 北京. Then they said: 🎉🎊"
    );
}

#[test]
fn collapse_whitespace_shape_and_idempotence_on_samples() {
    for text in [
        "",
        " ",
        "\u{00A0}\u{2028}x\u{3000}\u{2009}y\u{0085}",
        "  a  b  ",
        "\t\r\n",
        "one two",
    ] {
        let out = collapse_whitespace(text);
        assert!(!out.starts_with(' '));
        assert!(!out.ends_with(' '));
        assert!(!out.contains("  "));
        assert!(out.chars().all(|c| !c.is_whitespace() || c == ' '));
        assert_eq!(collapse_whitespace(&out), out);
    }
}
