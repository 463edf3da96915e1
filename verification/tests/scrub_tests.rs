use textprep::{scrub, scrub_with, ScrubCase, ScrubConfig, ScrubNormalization};

#[test]
fn test_scrub() {
    let text = "Müller";
    assert_eq!(scrub(text), "muller");
}

#[test]
fn test_scrub_with_preserves_when_disabled() {
    let cfg = ScrubConfig {
        normalize_newlines: false,
        remove_zero_width: false,
        remove_bidi_controls: false,
        collapse_whitespace: false,
        normalization: ScrubNormalization::Off,
        case: ScrubCase::Off,
        strip_diacritics: false,
    };
    assert_eq!(scrub_with("Müller", &cfg), "Müller");
}

#[test]
fn test_search_key_nfkc_casefold_expands_sharp_s() {
    let cfg = ScrubConfig::search_key();
    // ß case-folds to "ss" under Unicode CaseFolding.
    assert_eq!(scrub_with("Straße", &cfg), scrub_with("strasse", &cfg));
}

#[test]
fn test_search_key_strict_invisibles_removes_zwj_family() {
    let cfg = ScrubConfig::search_key_strict_invisibles();
    let text = "a\u{200B}b\u{200C}c\u{200D}d\u{2060}e\u{FEFF}f";
    assert_eq!(scrub_with(text, &cfg), "abcdef");
}

#[test]
fn test_search_key_preserves_zwj_by_default() {
    let cfg = ScrubConfig::search_key();
    let text = "x\u{200D}y"; // ZWJ
    let out = scrub_with(text, &cfg);
    assert_eq!(out, text);
}

#[test]
fn search_key_is_idempotent_on_samples() {
    let cfg = ScrubConfig::search_key();
    for text in [
        "  François  Müller\tmet  习近平  in  北京.\r\nThen   they  said:  🎉🎊  ",
        "Straße \u{202E}evil\u{202C} ＦＵＬＬ",
        "",
        "x\u{200D}y",
    ] {
        let once = scrub_with(text, &cfg);
        let twice = scrub_with(&once, &cfg);
        assert_eq!(once, twice);
    }
}

#[test]
fn search_key_strict_invisibles_is_idempotent_on_samples() {
    let cfg = ScrubConfig::search_key_strict_invisibles();
    for text in [
        "a\u{200B}b\u{200C}c\u{200D}d\u{2060}e\u{FEFF}f",
        "  Mixed \u{2066}bidi\u{2069} and ＷＩＤＥ  ",
        "",
    ] {
        let once = scrub_with(text, &cfg);
        let twice = scrub_with(&once, &cfg);
        assert_eq!(once, twice);
    }
}

#[test]
fn search_key_output_has_no_bidi_controls_on_samples() {
    let cfg = ScrubConfig::search_key();
    let bidi = [
        '\u{202A}', '\u{202B}', '\u{202C}', '\u{202D}', '\u{202E}', '\u{2066}', '\u{2067}',
        '\u{2068}', '\u{2069}', '\u{200E}', '\u{200F}', '\u{061C}',
    ];
    for text in [
        "a\u{202E}attack\u{202C}b",
        "\u{2066}isolate\u{2069} and \u{061C}mark\u{200F}",
    ] {
        let out = scrub_with(text, &cfg);
        assert!(out.chars().all(|c| !bidi.contains(&c)));
    }
}

#[test]
fn search_key_strict_output_has_no_invisibles_on_samples() {
    let cfg = ScrubConfig::search_key_strict_invisibles();
    let invisible = [
        '\u{200B}', '\u{200C}', '\u{200D}', '\u{2060}', '\u{FEFF}', '\u{202A}', '\u{202B}',
        '\u{202C}', '\u{202D}', '\u{202E}', '\u{2066}', '\u{2067}', '\u{2068}', '\u{2069}',
        '\u{200E}', '\u{200F}', '\u{061C}',
    ];
    let text = "a\u{200B}b \u{202E}c\u{202C} d\u{FEFF}";
    let out = scrub_with(text, &cfg);
    assert!(out.chars().all(|c| !invisible.contains(&c)));
}

#[test]
fn search_key_output_is_collapsed_on_samples() {
    let cfg = ScrubConfig::search_key();
    for text in ["  a\t\tb \r\n c  ", "¨x¨", "  "] {
        let out = scrub_with(text, &cfg);
        assert!(!out.starts_with(' '));
        assert!(!out.ends_with(' '));
        assert!(!out.contains("  "));
        assert!(out.chars().all(|c| !c.is_whitespace() || c == ' '));
    }
}

#[test]
fn scrub_with_internal_steps_only_is_idempotent_on_samples() {
    let cfg = ScrubConfig {
        normalize_newlines: true,
        remove_zero_width: true,
        remove_bidi_controls: true,
        collapse_whitespace: true,
        normalization: ScrubNormalization::Off,
        case: ScrubCase::Off,
        strip_diacritics: false,
    };
    for text in ["  a\r\nb\u{200B} \u{202E}c  ", "", "plain"] {
        let once = scrub_with(text, &cfg);
        let twice = scrub_with(&once, &cfg);
        assert_eq!(once, twice);
    }
}

#[test]
fn scrub_with_nfc_only_composes() {
    let cfg = ScrubConfig {
        normalize_newlines: false,
        remove_zero_width: false,
        remove_bidi_controls: false,
        collapse_whitespace: false,
        normalization: ScrubNormalization::Nfc,
        case: ScrubCase::Off,
        strip_diacritics: false,
    };
    assert_eq!(scrub_with("a\u{0308}", &cfg), "ä");
}

#[test]
fn default_scrub_matches_explicit_default_config() {
    let cfg = ScrubConfig::default();
    assert_eq!(scrub("ÉLAN"), scrub_with("ÉLAN", &cfg));
    assert_eq!(scrub("ÉLAN"), "elan");
}
